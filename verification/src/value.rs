//! Values: null, booleans, numbers, strings, enum values, lists, objects
//! and references to variables.

use vstd::prelude::*;
use crate::ast::{lemma_list_view, lemma_object_view, InputValue, InputValueView};
use crate::lexer::{text_len, Tokens};
use crate::parser::{
    agrees, covers, end_of_file_at, lemma_covered_span, spec_expect, spec_expect_name, spec_next,
    spec_skip, unexpected_at, ParseError, Parsed, Parser,
};
use crate::position::{SourcePosition, Spanning};
use crate::shape::{is_constant, spanned_ok, value_ok};
use crate::token::{Scalar, ScalarView, Token, TokenView};

verus! {

/// The fields of an object value, each a name and a value.
pub type FieldViews = Seq<(Spanning<Seq<char>>, Spanning<InputValueView>)>;

/// The value that the single token `token` is, if it is one: a number, a
/// string, one of the names `true`, `false` and `null`, or any other name,
/// which is an enum value.
pub open spec fn simple_value(token: TokenView) -> Option<InputValueView> {
    match token {
        TokenView::Scalar(ScalarView::Int(i)) => Some(InputValueView::Int(i)),
        TokenView::Scalar(ScalarView::Float(text)) => Some(InputValueView::Float(text)),
        TokenView::Scalar(ScalarView::String(text)) => Some(InputValueView::String(text)),
        TokenView::Name(name) => Some(
            if name == "true"@ {
                InputValueView::Boolean(true)
            } else if name == "false"@ {
                InputValueView::Boolean(false)
            } else if name == "null"@ {
                InputValueView::Null
            } else {
                InputValueView::Enum(name)
            },
        ),
        _ => None,
    }
}

/// The reference to a variable that starts at `at`: a dollar sign and a
/// name.
pub open spec fn spec_variable(tokens: Tokens, at: int) -> Parsed<Spanning<InputValueView>> {
    match spec_expect(tokens, at, TokenView::Dollar) {
        Err(e) => Err(e),
        Ok((dollar, at1)) => match spec_expect_name(tokens, at1) {
            Err(e) => Err(e),
            Ok((name, at2)) => Ok(
                (
                    Spanning {
                        start: dollar.start,
                        end: name.end,
                        item: InputValueView::Variable(name.item),
                    },
                    at2,
                ),
            ),
        },
    }
}

/// The value that starts at the token with index `at`. Where `constant` is
/// set, no variable may stand in it, however deep.
pub open spec fn spec_value(tokens: Tokens, at: int, constant: bool) -> Parsed<
    Spanning<InputValueView>,
>
    decreases tokens.len() - at, 0int,
    when 0 <= at < tokens.len()
{
    match tokens[at].item {
        TokenView::BracketOpen => match spec_expect(tokens, at, TokenView::BracketOpen) {
            Err(e) => Err(e),
            Ok((open, _)) => match spec_list_items(tokens, at + 1, constant, Seq::empty()) {
                Err(e) => Err(e),
                Ok(((items, end), next)) => Ok(
                    (Spanning { start: open.start, end, item: InputValueView::List(items) }, next),
                ),
            },
        },
        TokenView::CurlyOpen => match spec_expect(tokens, at, TokenView::CurlyOpen) {
            Err(e) => Err(e),
            Ok((open, _)) => match spec_object_fields(tokens, at + 1, constant, Seq::empty()) {
                Err(e) => Err(e),
                Ok(((fields, end), next)) => Ok(
                    (
                        Spanning { start: open.start, end, item: InputValueView::Object(fields) },
                        next,
                    ),
                ),
            },
        },
        TokenView::Dollar => if constant {
            Err(unexpected_at(tokens, at))
        } else {
            spec_variable(tokens, at)
        },
        token => match simple_value(token) {
            Some(value) => match spec_next(tokens, at) {
                Err(e) => Err(e),
                Ok((taken, next)) => Ok(
                    (Spanning { start: taken.start, end: taken.end, item: value }, next),
                ),
            },
            None => Err(unexpected_at(tokens, at)),
        },
    }
}

/// The rest of a list value from the token with index `at` on, where
/// `read` are the items before it: all the items, and the place where the
/// closing bracket ends.
pub open spec fn spec_list_items(
    tokens: Tokens,
    at: int,
    constant: bool,
    read: Seq<Spanning<InputValueView>>,
) -> Parsed<(Seq<Spanning<InputValueView>>, SourcePosition)>
    decreases tokens.len() - at, 1int,
    when 0 <= at
{
    if at >= tokens.len() {
        Err(end_of_file_at(tokens, at))
    } else {
        match spec_skip(tokens, at, TokenView::BracketClose) {
            Err(e) => Err(e),
            Ok((Some(close), next)) => Ok(((read, close.end), next)),
            Ok((None, _)) => match spec_value(tokens, at, constant) {
                Err(e) => Err(e),
                Ok((item, next)) => {
                    if at < next <= tokens.len() {
                        spec_list_items(tokens, next, constant, read.push(item))
                    } else {
                        Err(end_of_file_at(tokens, at))
                    }
                },
            },
        }
    }
}

/// One field of an object value: a name, a colon and a value.
pub open spec fn spec_object_field(tokens: Tokens, at: int, constant: bool) -> Parsed<
    (Spanning<Seq<char>>, Spanning<InputValueView>),
>
    decreases tokens.len() - at, 1int,
    when 0 <= at < tokens.len()
{
    match spec_expect_name(tokens, at) {
        Err(e) => Err(e),
        Ok((name, at1)) => match spec_expect(tokens, at1, TokenView::Colon) {
            Err(e) => Err(e),
            Ok((_, at2)) => {
                if at < at2 < tokens.len() {
                    match spec_value(tokens, at2, constant) {
                        Err(e) => Err(e),
                        Ok((value, next)) => Ok(((name, value), next)),
                    }
                } else {
                    Err(end_of_file_at(tokens, at))
                }
            },
        },
    }
}

/// The rest of an object value from the token with index `at` on, where
/// `read` are the fields before it: all the fields, and the place where
/// the closing brace ends.
pub open spec fn spec_object_fields(
    tokens: Tokens,
    at: int,
    constant: bool,
    read: FieldViews,
) -> Parsed<(FieldViews, SourcePosition)>
    decreases tokens.len() - at, 2int,
    when 0 <= at
{
    if at >= tokens.len() {
        Err(end_of_file_at(tokens, at))
    } else {
        match spec_skip(tokens, at, TokenView::CurlyClose) {
            Err(e) => Err(e),
            Ok((Some(close), next)) => Ok(((read, close.end), next)),
            Ok((None, _)) => match spec_object_field(tokens, at, constant) {
                Err(e) => Err(e),
                Ok((field, next)) => {
                    if at < next <= tokens.len() {
                        spec_object_fields(tokens, next, constant, read.push(field))
                    } else {
                        Err(end_of_file_at(tokens, at))
                    }
                },
            },
        }
    }
}

/// The value that the token `token` alone is, if it is one.
fn simple_value_of(token: Token) -> (r: Option<InputValue>)
    ensures
        r.deep_view() == simple_value(token.deep_view()),
{
    match token {
        Token::Scalar(Scalar::Int(i)) => Some(InputValue::Int(i)),
        Token::Scalar(Scalar::Float(text)) => Some(InputValue::Float(text)),
        Token::Scalar(Scalar::String(text)) => Some(InputValue::String(text)),
        Token::Name(name) => Some(
            if name.as_str().eq("true") {
                InputValue::Boolean(true)
            } else if name.as_str().eq("false") {
                InputValue::Boolean(false)
            } else if name.as_str().eq("null") {
                InputValue::Null
            } else {
                InputValue::Enum(name)
            },
        ),
        _ => None,
    }
}

fn parse_variable_literal(parser: &mut Parser) -> (r: Result<
    Spanning<InputValue>,
    Spanning<ParseError>,
>)
    requires
        old(parser).wf(),
    ensures
        final(parser).wf(),
        final(parser).tokens() == old(parser).tokens(),
        agrees(r, final(parser).cursor(), spec_variable(old(parser).tokens(), old(parser).cursor())),
        r matches Ok(v) ==> covers(
            old(parser).tokens(),
            old(parser).cursor(),
            final(parser).cursor(),
            v.start,
            v.end,
        ) && value_ok(v.deep_view(), text_len(old(parser).tokens())),
{
    let dollar = match parser.expect(&Token::Dollar) {
        Ok(t) => t,
        Err(e) => { return Err(e); },
    };
    let name = match parser.expect_name() {
        Ok(n) => n,
        Err(e) => { return Err(e); },
    };
    let v = Spanning::start_end(&dollar.start, &name.end, InputValue::Variable(name.item));
    proof {
        lemma_covered_span(
            old(parser).tokens(),
            old(parser).cursor(),
            parser.cursor(),
            v.start,
            v.end,
        );
    }
    Ok(v)
}

/// Parses a value. Where `is_constant` is set, a variable is an unexpected
/// token, in the value itself and in the lists and objects within it.
#[verifier::rlimit(50)]
pub fn parse_value_literal(parser: &mut Parser, is_constant: bool) -> (r: Result<
    Spanning<InputValue>,
    Spanning<ParseError>,
>)
    requires
        old(parser).wf(),
    ensures
        final(parser).wf(),
        final(parser).tokens() == old(parser).tokens(),
        agrees(
            r,
            final(parser).cursor(),
            spec_value(old(parser).tokens(), old(parser).cursor(), is_constant),
        ),
        r matches Ok(v) ==> {
            &&& covers(
                old(parser).tokens(),
                old(parser).cursor(),
                final(parser).cursor(),
                v.start,
                v.end,
            )
            &&& value_ok(v.deep_view(), text_len(old(parser).tokens()))
            &&& is_constant ==> crate::shape::is_constant(v.deep_view().item)
        },
    decreases old(parser).tokens().len() - old(parser).cursor(), 0int,
{
    let ghost tokens = parser.tokens();
    let ghost at = parser.cursor();
    let start = parser.peek().start;
    let end = parser.peek().end;
    let token = parser.peek().item.clone();
    match token {
        Token::BracketOpen => parse_list_literal(parser, is_constant),
        Token::CurlyOpen => parse_object_literal(parser, is_constant),
        Token::Dollar => {
            if is_constant {
                Err(parser.unexpected())
            } else {
                parse_variable_literal(parser)
            }
        },
        other => {
            match simple_value_of(other) {
                Some(value) => {
                    match parser.next() {
                        Ok(_) => {},
                        Err(e) => { return Err(e); },
                    }
                    let v = Spanning::start_end(&start, &end, value);
                    proof {
                        lemma_covered_span(tokens, at, parser.cursor(), v.start, v.end);
                    }
                    Ok(v)
                },
                None => Err(parser.unexpected()),
            }
        },
    }
}

#[verifier::rlimit(50)]
fn parse_list_literal(parser: &mut Parser, is_constant: bool) -> (r: Result<
    Spanning<InputValue>,
    Spanning<ParseError>,
>)
    requires
        old(parser).wf(),
        old(parser).tokens()[old(parser).cursor()].item is BracketOpen,
    ensures
        final(parser).wf(),
        final(parser).tokens() == old(parser).tokens(),
        agrees(
            r,
            final(parser).cursor(),
            spec_value(old(parser).tokens(), old(parser).cursor(), is_constant),
        ),
        r matches Ok(v) ==> {
            &&& covers(
                old(parser).tokens(),
                old(parser).cursor(),
                final(parser).cursor(),
                v.start,
                v.end,
            )
            &&& value_ok(v.deep_view(), text_len(old(parser).tokens()))
            &&& is_constant ==> crate::shape::is_constant(v.deep_view().item)
        },
    decreases old(parser).tokens().len() - old(parser).cursor() - 1, 3int,
{
    let ghost tokens = parser.tokens();
    let ghost at = parser.cursor();
    let ghost limit = text_len(tokens);
    let open = match parser.expect(&Token::BracketOpen) {
        Ok(t) => t,
        Err(e) => { return Err(e); },
    };
    let mut items: Vec<Spanning<InputValue>> = Vec::new();
    proof {
        assert(items.deep_view() =~= Seq::empty());
    }
    loop
        invariant
            parser.wf(),
            0 <= at < tokens.len(),
            parser.tokens() == tokens,
            tokens == old(parser).tokens(),
            at == old(parser).cursor(),
            limit == text_len(tokens),
            at < parser.cursor(),
            open.start == tokens[at].start,
            tokens[at].item is BracketOpen,
            spec_list_items(tokens, at + 1, is_constant, Seq::empty()) == spec_list_items(
                tokens,
                parser.cursor(),
                is_constant,
                items.deep_view(),
            ),
            forall|i: int|
                0 <= i < items.deep_view().len() ==> value_ok(
                    #[trigger] items.deep_view()[i],
                    limit,
                ),
            is_constant ==> forall|i: int|
                0 <= i < items.deep_view().len() ==> crate::shape::is_constant(
                    (#[trigger] items.deep_view()[i]).item,
                ),
        decreases tokens.len() - parser.cursor(),
    {
        match parser.skip(&Token::BracketClose) {
            Err(e) => { return Err(e); },
            Ok(Some(close)) => {
                let v = Spanning::start_end(&open.start, &close.end, InputValue::List(items));
                proof {
                    lemma_list_view(items);
                    lemma_covered_span(tokens, at, parser.cursor(), v.start, v.end);
                }
                return Ok(v);
            },
            Ok(None) => {},
        }
        let item = match parse_value_literal(parser, is_constant) {
            Ok(item) => item,
            Err(e) => { return Err(e); },
        };
        let ghost before = items.deep_view();
        items.push(item);
        proof {
            assert(items.deep_view() =~= before.push(item.deep_view()));
        }
    }
}

#[verifier::rlimit(50)]
fn parse_object_field(parser: &mut Parser, is_constant: bool) -> (r: Result<
    (Spanning<String>, Spanning<InputValue>),
    Spanning<ParseError>,
>)
    requires
        old(parser).wf(),
    ensures
        final(parser).wf(),
        final(parser).tokens() == old(parser).tokens(),
        agrees(
            r,
            final(parser).cursor(),
            spec_object_field(old(parser).tokens(), old(parser).cursor(), is_constant),
        ),
        r matches Ok(f) ==> {
            &&& old(parser).cursor() < final(parser).cursor()
            &&& spanned_ok(f.0.deep_view(), text_len(old(parser).tokens()))
            &&& value_ok(f.1.deep_view(), text_len(old(parser).tokens()))
            &&& is_constant ==> crate::shape::is_constant(f.1.deep_view().item)
        },
    decreases old(parser).tokens().len() - old(parser).cursor(), 1int,
{
    let ghost tokens = parser.tokens();
    let ghost at = parser.cursor();
    let name = match parser.expect_name() {
        Ok(n) => n,
        Err(e) => { return Err(e); },
    };
    proof {
        lemma_covered_span(tokens, at, parser.cursor(), name.start, name.end);
    }
    match parser.expect(&Token::Colon) {
        Ok(_) => {},
        Err(e) => { return Err(e); },
    }
    let value = match parse_value_literal(parser, is_constant) {
        Ok(v) => v,
        Err(e) => { return Err(e); },
    };
    Ok((name, value))
}

#[verifier::rlimit(50)]
fn parse_object_literal(parser: &mut Parser, is_constant: bool) -> (r: Result<
    Spanning<InputValue>,
    Spanning<ParseError>,
>)
    requires
        old(parser).wf(),
        old(parser).tokens()[old(parser).cursor()].item is CurlyOpen,
    ensures
        final(parser).wf(),
        final(parser).tokens() == old(parser).tokens(),
        agrees(
            r,
            final(parser).cursor(),
            spec_value(old(parser).tokens(), old(parser).cursor(), is_constant),
        ),
        r matches Ok(v) ==> {
            &&& covers(
                old(parser).tokens(),
                old(parser).cursor(),
                final(parser).cursor(),
                v.start,
                v.end,
            )
            &&& value_ok(v.deep_view(), text_len(old(parser).tokens()))
            &&& is_constant ==> crate::shape::is_constant(v.deep_view().item)
        },
    decreases old(parser).tokens().len() - old(parser).cursor() - 1, 3int,
{
    let ghost tokens = parser.tokens();
    let ghost at = parser.cursor();
    let ghost limit = text_len(tokens);
    let open = match parser.expect(&Token::CurlyOpen) {
        Ok(t) => t,
        Err(e) => { return Err(e); },
    };
    let mut fields: Vec<(Spanning<String>, Spanning<InputValue>)> = Vec::new();
    proof {
        assert(fields.deep_view() =~= Seq::empty());
    }
    loop
        invariant
            parser.wf(),
            0 <= at < tokens.len(),
            parser.tokens() == tokens,
            tokens == old(parser).tokens(),
            at == old(parser).cursor(),
            limit == text_len(tokens),
            at < parser.cursor(),
            open.start == tokens[at].start,
            tokens[at].item is CurlyOpen,
            spec_object_fields(tokens, at + 1, is_constant, Seq::empty()) == spec_object_fields(
                tokens,
                parser.cursor(),
                is_constant,
                fields.deep_view(),
            ),
            forall|i: int|
                0 <= i < fields.deep_view().len() ==> spanned_ok(
                    (#[trigger] fields.deep_view()[i]).0,
                    limit,
                ) && value_ok(fields.deep_view()[i].1, limit),
            is_constant ==> forall|i: int|
                0 <= i < fields.deep_view().len() ==> crate::shape::is_constant(
                    (#[trigger] fields.deep_view()[i]).1.item,
                ),
        decreases tokens.len() - parser.cursor(),
    {
        match parser.skip(&Token::CurlyClose) {
            Err(e) => { return Err(e); },
            Ok(Some(close)) => {
                let v = Spanning::start_end(&open.start, &close.end, InputValue::Object(fields));
                proof {
                    lemma_object_view(fields);
                    lemma_covered_span(tokens, at, parser.cursor(), v.start, v.end);
                }
                return Ok(v);
            },
            Ok(None) => {},
        }
        let field = match parse_object_field(parser, is_constant) {
            Ok(field) => field,
            Err(e) => { return Err(e); },
        };
        let ghost before = fields.deep_view();
        fields.push(field);
        proof {
            assert(fields.deep_view() =~= before.push(field.deep_view()));
        }
    }
}

} // verus!
