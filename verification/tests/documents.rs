use juniper::ast::{
    Arguments, Definition, Directive, Field, Fragment, FragmentSpread, InlineFragment, InputValue,
    Operation, OperationType, Selection, Type, VariableDefinition, VariableDefinitions,
};
use juniper::document::{parse_document_source, parse_type, parse_value_source};
use juniper::lexer::Lexer;
use juniper::parser::{ParseError, Parser};
use juniper::position::{SourcePosition, Spanning};
use juniper::token::{LexError, Scalar, Token};
use juniper::value::parse_value_literal;

fn at(index: usize) -> SourcePosition {
    SourcePosition::new(index, 0, index)
}

fn span<T>(start: usize, end: usize, item: T) -> Spanning<T> {
    Spanning::start_end(&at(start), &at(end), item)
}

fn name(start: usize, text: &str) -> Spanning<String> {
    span(start, start + text.len(), text.to_string())
}

fn plain_field(start: usize, text: &str) -> Selection {
    Selection::Field(span(
        start,
        start + text.len(),
        Field {
            alias: None,
            name: name(start, text),
            arguments: None,
            directives: None,
            selection_set: None,
        },
    ))
}

#[test]
fn bare_selection_is_an_anonymous_query() {
    let doc = parse_document_source("{ hero { name } }").unwrap();
    let expected = vec![Definition::Operation(span(
        0,
        17,
        Operation {
            operation_type: OperationType::Query,
            name: None,
            variable_definitions: None,
            directives: None,
            selection_set: vec![Selection::Field(span(
                2,
                15,
                Field {
                    alias: None,
                    name: name(2, "hero"),
                    arguments: None,
                    directives: None,
                    selection_set: Some(vec![plain_field(9, "name")]),
                },
            ))],
        },
    ))];
    assert_eq!(doc, expected);
}

#[test]
fn named_query_with_variables_and_alias() {
    let source = "query H($ep: Episode = NEWHOPE) { h: hero(episode: $ep) { name } }";
    let doc = parse_document_source(source).unwrap();
    let expected = vec![Definition::Operation(span(
        0,
        66,
        Operation {
            operation_type: OperationType::Query,
            name: Some(name(6, "H")),
            variable_definitions: Some(span(
                7,
                31,
                VariableDefinitions {
                    items: vec![(
                        span(8, 11, "ep".to_string()),
                        VariableDefinition {
                            var_type: span(13, 20, Type::Named("Episode".to_string())),
                            default_value: Some(span(
                                23,
                                30,
                                InputValue::Enum("NEWHOPE".to_string()),
                            )),
                        },
                    )],
                },
            )),
            directives: None,
            selection_set: vec![Selection::Field(span(
                34,
                64,
                Field {
                    alias: Some(name(34, "h")),
                    name: name(37, "hero"),
                    arguments: Some(span(
                        41,
                        55,
                        Arguments {
                            items: vec![(
                                name(42, "episode"),
                                span(51, 54, InputValue::Variable("ep".to_string())),
                            )],
                        },
                    )),
                    directives: None,
                    selection_set: Some(vec![plain_field(58, "name")]),
                },
            ))],
        },
    ))];
    assert_eq!(doc, expected);
}

#[test]
fn fragment_with_fields_and_a_spread() {
    let doc = parse_document_source("fragment F on T { a ...G b }").unwrap();
    let expected = vec![Definition::Fragment(span(
        0,
        28,
        Fragment {
            name: name(9, "F"),
            type_condition: name(14, "T"),
            directives: None,
            selection_set: vec![
                plain_field(18, "a"),
                Selection::FragmentSpread(span(
                    20,
                    24,
                    FragmentSpread { name: name(23, "G"), directives: None },
                )),
                plain_field(25, "b"),
            ],
        },
    ))];
    assert_eq!(doc, expected);
}

#[test]
fn inline_fragment_with_a_directive_only() {
    let doc = parse_document_source("{ ... @include(if: true) { x } }").unwrap();
    let expected = vec![Definition::Operation(span(
        0,
        32,
        Operation {
            operation_type: OperationType::Query,
            name: None,
            variable_definitions: None,
            directives: None,
            selection_set: vec![Selection::InlineFragment(span(
                2,
                30,
                InlineFragment {
                    type_condition: None,
                    directives: Some(vec![span(
                        6,
                        24,
                        Directive {
                            name: name(7, "include"),
                            arguments: Some(span(
                                14,
                                24,
                                Arguments {
                                    items: vec![(
                                        name(15, "if"),
                                        span(19, 23, InputValue::Boolean(true)),
                                    )],
                                },
                            )),
                        },
                    )]),
                    selection_set: vec![plain_field(27, "x")],
                },
            ))],
        },
    ))];
    assert_eq!(doc, expected);
}

#[test]
fn inline_fragment_with_type_condition() {
    let doc = parse_document_source("{ ... on User @skip { id } }").unwrap();
    let expected = vec![Definition::Operation(span(
        0,
        28,
        Operation {
            operation_type: OperationType::Query,
            name: None,
            variable_definitions: None,
            directives: None,
            selection_set: vec![Selection::InlineFragment(span(
                2,
                26,
                InlineFragment {
                    type_condition: Some(name(9, "User")),
                    directives: Some(vec![span(
                        14,
                        19,
                        Directive { name: name(15, "skip"), arguments: None },
                    )]),
                    selection_set: vec![plain_field(22, "id")],
                },
            ))],
        },
    ))];
    assert_eq!(doc, expected);
}

#[test]
fn inline_fragment_without_anything() {
    let doc = parse_document_source("{ ... { id } }").unwrap();
    match &doc[0] {
        Definition::Operation(o) => match &o.item.selection_set[0] {
            Selection::InlineFragment(f) => {
                assert_eq!(f.start, at(2));
                assert_eq!(f.end, at(12));
                assert_eq!(f.item.type_condition, None);
                assert_eq!(f.item.directives, None);
                assert_eq!(f.item.selection_set, vec![plain_field(8, "id")]);
            }
            other => panic!("no inline fragment: {:?}", other),
        },
        other => panic!("no operation: {:?}", other),
    }
}

#[test]
fn non_null_list_type() {
    assert_eq!(
        parse_type("[Int!]!"),
        Ok(span(
            0,
            7,
            Type::NonNullList(Box::new(Type::NonNullNamed("Int".to_string())))
        ))
    );
}

#[test]
fn plain_and_list_types() {
    assert_eq!(parse_type("Int"), Ok(span(0, 3, Type::Named("Int".to_string()))));
    assert_eq!(parse_type("Int!"), Ok(span(0, 4, Type::NonNullNamed("Int".to_string()))));
    assert_eq!(
        parse_type("[[Int]]"),
        Ok(span(
            0,
            7,
            Type::List(Box::new(Type::List(Box::new(Type::Named("Int".to_string())))))
        ))
    );
}

#[test]
fn fragment_named_on_is_rejected() {
    assert_eq!(
        parse_document_source("fragment on on T { x }"),
        Err(span(9, 11, ParseError::UnexpectedToken(Token::Name("on".to_string()))))
    );
}

#[test]
fn empty_input_ends_too_early() {
    assert_eq!(
        parse_document_source(""),
        Err(span(0, 0, ParseError::UnexpectedEndOfFile))
    );
    assert_eq!(
        parse_document_source("  # nothing here"),
        Err(span(16, 16, ParseError::UnexpectedEndOfFile))
    );
}

#[test]
fn trailing_white_space_and_comments_are_accepted() {
    let plain = parse_document_source("{ a }").unwrap();
    let trailing = parse_document_source("{ a }  \n\t # the end\n,,  # more").unwrap();
    assert_eq!(plain, trailing);
    assert_eq!(plain.len(), 1);
}

#[test]
fn number_with_leading_zero_is_a_lexer_error() {
    assert_eq!(
        parse_document_source("{ a(x: 0123) }"),
        Err(span(8, 8, ParseError::LexerError(LexError::InvalidNumber)))
    );
}

#[test]
fn unknown_escape_is_a_lexer_error() {
    assert_eq!(
        parse_document_source("{ a(x: \"\\q\") }"),
        Err(span(
            9,
            9,
            ParseError::LexerError(LexError::UnknownEscapeSequence("\\q".to_string()))
        ))
    );
}

#[test]
fn two_exclamation_marks_are_rejected() {
    assert_eq!(
        parse_type("Int!!"),
        Err(span(4, 5, ParseError::UnexpectedToken(Token::ExclamationMark)))
    );
    assert_eq!(
        parse_document_source("query ($a: Int!!) { a }"),
        Err(span(15, 16, ParseError::UnexpectedToken(Token::ExclamationMark)))
    );
}

#[test]
fn first_failure_in_the_text_is_the_one_returned() {
    assert_eq!(
        parse_document_source("} x 0123"),
        Err(span(0, 1, ParseError::UnexpectedToken(Token::CurlyClose)))
    );
    assert_eq!(
        parse_document_source("{ a } x { b ?"),
        Err(span(6, 7, ParseError::UnexpectedToken(Token::Name("x".to_string()))))
    );
    assert_eq!(
        parse_document_source("{ a ( ) } \"unfinished"),
        Err(span(6, 7, ParseError::UnexpectedToken(Token::ParenClose)))
    );
}

#[test]
fn lexer_failure_comes_to_light_one_token_ahead() {
    assert_eq!(
        parse_document_source("} 0123"),
        Err(span(3, 3, ParseError::LexerError(LexError::InvalidNumber)))
    );
    assert_eq!(
        parse_document_source("{ a ?"),
        Err(span(4, 4, ParseError::LexerError(LexError::UnknownCharacter('?'))))
    );
    assert_eq!(
        parse_document_source("{ a } ?"),
        Err(span(6, 6, ParseError::LexerError(LexError::UnknownCharacter('?'))))
    );
    assert_eq!(
        parse_document_source("{ a ( ) \"unfinished"),
        Err(span(19, 19, ParseError::LexerError(LexError::UnterminatedString)))
    );
    assert_eq!(
        parse_document_source("?"),
        Err(span(0, 0, ParseError::LexerError(LexError::UnknownCharacter('?'))))
    );
    assert_eq!(
        parse_type("Int ?"),
        Err(span(4, 4, ParseError::LexerError(LexError::UnknownCharacter('?'))))
    );
    assert_eq!(
        parse_value_source("[1 .."),
        Err(span(5, 5, ParseError::LexerError(LexError::UnexpectedEndOfFile)))
    );
}

#[test]
fn unexpected_tokens_at_the_top() {
    assert_eq!(
        parse_document_source("}"),
        Err(span(0, 1, ParseError::UnexpectedToken(Token::CurlyClose)))
    );
    assert_eq!(
        parse_document_source("subscription { a }"),
        Err(span(
            0,
            12,
            ParseError::UnexpectedToken(Token::Name("subscription".to_string()))
        ))
    );
    assert_eq!(
        parse_document_source("{ a } 12"),
        Err(span(
            6,
            8,
            ParseError::UnexpectedToken(Token::Scalar(Scalar::Int(12)))
        ))
    );
}

#[test]
fn empty_selection_set_is_rejected() {
    assert_eq!(
        parse_document_source("{ }"),
        Err(span(2, 3, ParseError::UnexpectedToken(Token::CurlyClose)))
    );
    assert_eq!(
        parse_document_source("{ a { } }"),
        Err(span(6, 7, ParseError::UnexpectedToken(Token::CurlyClose)))
    );
}

#[test]
fn empty_argument_list_is_rejected() {
    assert_eq!(
        parse_document_source("{ a() }"),
        Err(span(4, 5, ParseError::UnexpectedToken(Token::ParenClose)))
    );
    assert_eq!(
        parse_document_source("query Q() { a }"),
        Err(span(8, 9, ParseError::UnexpectedToken(Token::ParenClose)))
    );
}

#[test]
fn text_that_ends_in_the_middle() {
    assert_eq!(
        parse_document_source("{"),
        Err(span(1, 1, ParseError::UnexpectedEndOfFile))
    );
    assert_eq!(
        parse_document_source("{ a"),
        Err(span(3, 3, ParseError::UnexpectedEndOfFile))
    );
    assert_eq!(
        parse_document_source("{ a(b:"),
        Err(span(6, 6, ParseError::UnexpectedEndOfFile))
    );
    assert_eq!(
        parse_document_source("fragment"),
        Err(span(8, 8, ParseError::UnexpectedEndOfFile))
    );
}

#[test]
fn mutation_with_directives() {
    let doc = parse_document_source("mutation @a @b(c: 1) { d }").unwrap();
    match &doc[0] {
        Definition::Operation(o) => {
            assert_eq!(o.start, at(0));
            assert_eq!(o.end, at(26));
            assert_eq!(o.item.operation_type, OperationType::Mutation);
            assert_eq!(o.item.name, None);
            assert_eq!(o.item.variable_definitions, None);
            let directives = o.item.directives.as_ref().unwrap();
            assert_eq!(directives.len(), 2);
            assert_eq!(directives[0], span(9, 11, Directive { name: name(10, "a"), arguments: None }));
            assert_eq!(directives[1].start, at(12));
            assert_eq!(directives[1].end, at(20));
            assert_eq!(directives[1].item.name, name(13, "b"));
            assert_eq!(o.item.selection_set, vec![plain_field(23, "d")]);
        }
        other => panic!("no operation: {:?}", other),
    }
}

#[test]
fn several_definitions_in_order() {
    let doc =
        parse_document_source("query A { a }\nfragment F on T { b }\n{ c }\nmutation M { d }")
            .unwrap();
    assert_eq!(doc.len(), 4);
    let operations = doc.iter().filter(|d| matches!(d, Definition::Operation(_))).count();
    let fragments = doc.iter().filter(|d| matches!(d, Definition::Fragment(_))).count();
    assert_eq!(operations, 3);
    assert_eq!(fragments, 1);
    assert_eq!(operations + fragments, doc.len());
    match &doc[1] {
        Definition::Fragment(f) => {
            assert_eq!(f.start, SourcePosition::new(14, 1, 0));
            assert_eq!(f.end, SourcePosition::new(35, 1, 21));
        }
        other => panic!("no fragment: {:?}", other),
    }
    match &doc[3] {
        Definition::Operation(o) => {
            assert_eq!(o.start, SourcePosition::new(42, 3, 0));
            assert_eq!(o.item.operation_type, OperationType::Mutation);
        }
        other => panic!("no operation: {:?}", other),
    }
}

#[test]
fn field_ends_with_its_last_part() {
    let doc = parse_document_source("{ a b(c: 1) d @e f @g { h } }").unwrap();
    match &doc[0] {
        Definition::Operation(o) => {
            let ends: Vec<(usize, usize)> = o
                .item
                .selection_set
                .iter()
                .map(|s| match s {
                    Selection::Field(f) => (f.start.index(), f.end.index()),
                    other => panic!("no field: {:?}", other),
                })
                .collect();
            assert_eq!(ends, vec![(2, 3), (4, 11), (12, 16), (17, 27)]);
        }
        other => panic!("no operation: {:?}", other),
    }
}

#[test]
fn variable_in_default_value_is_rejected() {
    assert_eq!(
        parse_document_source("query ($a: Int = $b) { a }"),
        Err(span(17, 18, ParseError::UnexpectedToken(Token::Dollar)))
    );
    assert_eq!(
        parse_document_source("query ($a: [Int] = [1, {k: [$b]}]) { a }"),
        Err(span(28, 29, ParseError::UnexpectedToken(Token::Dollar)))
    );
}

fn holds_variable(v: &InputValue) -> bool {
    match v {
        InputValue::Variable(_) => true,
        InputValue::List(items) => items.iter().any(|i| holds_variable(&i.item)),
        InputValue::Object(fields) => fields.iter().any(|f| holds_variable(&f.1.item)),
        _ => false,
    }
}

#[test]
fn constant_values_hold_no_variable() {
    let sources = ["1", "[1, [2, {a: \"x\"}]]", "{a: {b: [E, true, null, 1.5]}}", "$v", "[$v]", "{a: [{b: $v}]}"];
    for source in sources {
        let mut lexer = Lexer::new(source);
        let mut parser = Parser::new(&mut lexer).unwrap();
        match parse_value_literal(&mut parser, true) {
            Ok(v) => assert!(!holds_variable(&v.item)),
            Err(e) => assert_eq!(e.item, ParseError::UnexpectedToken(Token::Dollar)),
        }
        let mut lexer = Lexer::new(source);
        let mut parser = Parser::new(&mut lexer).unwrap();
        assert!(parse_value_literal(&mut parser, false).is_ok());
    }
}

#[test]
fn values_of_every_kind() {
    let mut lexer = Lexer::new("[null, true, false, 12, -1.5e3, \"s\", RED, $v, [], {}, {a: 1, a: 2}]");
    let mut parser = Parser::new(&mut lexer).unwrap();
    let value = parse_value_literal(&mut parser, false).unwrap();
    let expected = span(
        0,
        67,
        InputValue::List(vec![
            span(1, 5, InputValue::Null),
            span(7, 11, InputValue::Boolean(true)),
            span(13, 18, InputValue::Boolean(false)),
            span(20, 22, InputValue::Int(12)),
            span(24, 30, InputValue::Float("-1.5e3".to_string())),
            span(32, 35, InputValue::String("s".to_string())),
            span(37, 40, InputValue::Enum("RED".to_string())),
            span(42, 44, InputValue::Variable("v".to_string())),
            span(46, 48, InputValue::List(vec![])),
            span(50, 52, InputValue::Object(vec![])),
            span(
                54,
                66,
                InputValue::Object(vec![
                    (name(55, "a"), span(58, 59, InputValue::Int(1))),
                    (name(61, "a"), span(64, 65, InputValue::Int(2))),
                ]),
            ),
        ]),
    );
    assert_eq!(value, expected);
    match &value.item {
        InputValue::List(items) => match &items[4].item {
            InputValue::Float(text) => assert_eq!(text.parse::<f64>().unwrap(), -1500.0),
            other => panic!("no float: {:?}", other),
        },
        other => panic!("no list: {:?}", other),
    }
}

#[test]
fn value_that_stands_alone() {
    assert_eq!(
        parse_value_source(" {a: [1, 2]} "),
        Ok(span(
            1,
            12,
            InputValue::Object(vec![(
                name(2, "a"),
                span(
                    5,
                    11,
                    InputValue::List(vec![
                        span(6, 7, InputValue::Int(1)),
                        span(9, 10, InputValue::Int(2))
                    ])
                )
            )])
        ))
    );
    assert_eq!(
        parse_value_source("1 2"),
        Err(span(2, 3, ParseError::UnexpectedToken(Token::Scalar(Scalar::Int(2)))))
    );
    assert_eq!(
        parse_value_source("$v"),
        Err(span(0, 1, ParseError::UnexpectedToken(Token::Dollar)))
    );
    assert_eq!(parse_value_source(""), Err(span(0, 0, ParseError::UnexpectedEndOfFile)));
    assert_eq!(
        parse_value_source("[1"),
        Err(span(2, 2, ParseError::UnexpectedEndOfFile))
    );
    assert_eq!(
        parse_value_source("\"a"),
        Err(span(2, 2, ParseError::LexerError(LexError::UnterminatedString)))
    );
}

fn check_spans(selections: &[Selection], len: usize) {
    assert!(!selections.is_empty());
    for s in selections {
        match s {
            Selection::Field(f) => {
                assert!(f.start.index() <= f.end.index() && f.end.index() <= len);
                assert!(f.item.name.start.index() <= f.item.name.end.index());
                assert!(f.item.name.end.index() <= len);
                if let Some(set) = &f.item.selection_set {
                    check_spans(set, len);
                }
            }
            Selection::FragmentSpread(f) => {
                assert!(f.start.index() <= f.end.index() && f.end.index() <= len);
            }
            Selection::InlineFragment(f) => {
                assert!(f.start.index() <= f.end.index() && f.end.index() <= len);
                check_spans(&f.item.selection_set, len);
            }
        }
    }
}

#[test]
fn ranges_lie_within_the_source() {
    let source = "# caf\u{e9}\n{ a(s: \"\u{1F600}\u{e9}\") { ...F ... on T { b } } }\n";
    let doc = parse_document_source(source).unwrap();
    for d in &doc {
        match d {
            Definition::Operation(o) => {
                assert!(o.start.index() <= o.end.index() && o.end.index() <= source.len());
                check_spans(&o.item.selection_set, source.len());
            }
            Definition::Fragment(f) => {
                assert!(f.start.index() <= f.end.index() && f.end.index() <= source.len());
                check_spans(&f.item.selection_set, source.len());
            }
        }
    }
    match &doc[0] {
        Definition::Operation(o) => {
            assert_eq!(o.start, SourcePosition::new(8, 1, 0));
            assert_eq!(o.end, SourcePosition::new(50, 1, 38));
            assert_eq!(&source[o.start.index()..o.end.index()], source[8..].trim_end());
        }
        other => panic!("no operation: {:?}", other),
    }
}

fn outline(selections: &[Selection]) -> String {
    let mut out = String::new();
    for s in selections {
        match s {
            Selection::Field(f) => {
                if let Some(alias) = &f.item.alias {
                    out.push_str(&format!("{}:", alias.item));
                }
                out.push_str(&f.item.name.item);
                if let Some(arguments) = &f.item.arguments {
                    for (key, value) in &arguments.item.items {
                        out.push_str(&format!("({}={:?})", key.item, value.item));
                    }
                    out = out.replace(|c: char| c.is_ascii_digit(), "#");
                }
                if let Some(set) = &f.item.selection_set {
                    out.push_str(&format!("{{{}}}", outline(set)));
                }
            }
            Selection::FragmentSpread(f) => out.push_str(&format!("...{}", f.item.name.item)),
            Selection::InlineFragment(f) => {
                out.push_str(&format!("...{{{}}}", outline(&f.item.selection_set)))
            }
        }
        out.push(' ');
    }
    out
}

fn outline_of(source: &str) -> Vec<String> {
    parse_document_source(source)
        .unwrap()
        .iter()
        .map(|d| match d {
            Definition::Operation(o) => format!(
                "{:?} {:?} {}",
                o.item.operation_type,
                o.item.name.as_ref().map(|n| n.item.clone()),
                outline(&o.item.selection_set)
            ),
            Definition::Fragment(f) => format!(
                "fragment {} on {} {}",
                f.item.name.item,
                f.item.type_condition.item,
                outline(&f.item.selection_set)
            ),
        })
        .collect()
}

#[test]
fn layout_does_not_matter() {
    let tight = "query Q{a:b(c:true){d ...F}...{e}}fragment F on T{g}";
    let loose = "# a query\nquery , Q\n{\n  a : b ( c : true ) {\n    d\n    ... F\n  }\n  ... {\n    e # last\n  }\n}\n\nfragment F on T {\n\tg,\n}\n";
    assert_eq!(outline_of(tight), outline_of(loose));
    assert_eq!(outline_of(tight).len(), 2);
    assert_ne!(
        parse_document_source(tight).unwrap(),
        parse_document_source(loose).unwrap()
    );
    let failed_tight = parse_document_source("{a(b:)}").unwrap_err();
    let failed_loose = parse_document_source("{\n  a ( b : )\n}").unwrap_err();
    assert_eq!(failed_tight.item, ParseError::UnexpectedToken(Token::ParenClose));
    assert_eq!(failed_tight.item, failed_loose.item);
    assert_ne!(failed_tight.start, failed_loose.start);
}

#[test]
fn copies_are_equal_to_what_they_were_made_of() {
    let source = "query Q($a: [Int!]! = [1, 2], $b: T = {k: \"v\", l: [E, 1.5, null]}) @d(x: $a) {\n  a: b(c: {d: [$a, true]}) @e { f ...G @h ... on T { i } }\n}\nfragment G on T @j { k }";
    let doc = parse_document_source(source).unwrap();
    let copy = doc.clone();
    assert_eq!(copy, doc);
    assert_eq!(format!("{:?}", copy), format!("{:?}", doc));
    match (&doc[0], &doc[1]) {
        (Definition::Operation(o), Definition::Fragment(f)) => {
            assert_eq!(o.item.clone(), o.item);
            assert_eq!(f.item.clone(), f.item);
            assert_eq!(o.item.selection_set[0].clone(), o.item.selection_set[0]);
            let definitions = o.item.variable_definitions.as_ref().unwrap();
            assert_eq!(definitions.item.clone(), definitions.item);
            assert_eq!(definitions.item.items[0].1.var_type.item.clone(), Type::NonNullList(
                Box::new(Type::NonNullNamed("Int".to_string()))
            ));
            let default = definitions.item.items[1].1.default_value.as_ref().unwrap();
            assert_eq!(default.item.clone(), default.item);
        }
        other => panic!("unexpected definitions: {:?}", other),
    }
    let error = parse_document_source("{ a(b: \"\\q\") }").unwrap_err();
    assert_eq!(error.clone(), error);
}
