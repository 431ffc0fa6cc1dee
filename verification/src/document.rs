//! The parser of documents: operations, fragments, and what they are made
//! of.

use vstd::prelude::*;
use vstd::string::StringSliceAdditionalSpecFns;
use crate::ast::{
    lemma_field_view, lemma_inline_fragment_view, Arguments, Definition,
    DefinitionView, Directive, Document, Field, Fragment, FragmentSpread, InlineFragment,
    InputValue, Operation, OperationType, Selection, SelectionView, Type, VariableDefinition,
    VariableDefinitions,
};
use crate::grammar::{
    non_null, spec_argument, spec_argument_items, spec_arguments, spec_base_type,
    spec_definition, spec_definitions, spec_directive, spec_directive_run, spec_directives,
    spec_document, spec_field, spec_fragment, spec_fragment_selection, spec_inline_fragment,
    spec_operation, spec_operation_type, spec_selection, spec_selection_set,
    spec_selections, spec_type, spec_variable_definition,
    spec_variable_definition_items, spec_variable_definitions, unspanned,
};
use crate::lexer::{text_len, tokens_of, Lexer, Tokens};
use crate::parser::{
    agrees, covers, lemma_covered_span, lexer_failure, spec_next, unexpected_at, ParseError,
    ParseErrorView, Parser,
};
use crate::position::{SourcePosition, Spanning};
use crate::shape::{
    arguments_ok, definition_ok, directive_ok, directives_ok, document_ok, is_constant,
    selection_ok, selections_ok, spanned_ok, value_ok, variable_definitions_ok,
};
use crate::token::{Token, TokenView};
use crate::value::{parse_value_literal, spec_value};

verus! {

/// Whether a parser was left with the tokens it had, and with its cursor
/// at one of them.
pub open spec fn kept(before: &Parser, after: &Parser) -> bool {
    &&& after.wf()
    &&& after.tokens() == before.tokens()
}

/// Whether an optional construct that was read covers the tokens from
/// `from` up to `to`; and where there is none, whether nothing was read.
pub open spec fn covers_if_some<T>(
    tokens: Tokens,
    from: int,
    to: int,
    s: Option<Spanning<T>>,
) -> bool {
    match s {
        Some(s) => covers(tokens, from, to, s.start, s.end),
        None => from == to,
    }
}

/// Adds to the type `inner` the exclamation mark that stands after it.
fn wrap_non_null(parser: &mut Parser, inner: Spanning<Type>) -> (r: Result<
    Spanning<Type>,
    Spanning<ParseError>,
>)
    requires
        old(parser).wf(),
        old(parser).tokens()[old(parser).cursor()].item is ExclamationMark,
    ensures
        kept(old(parser), final(parser)),
        match spec_next(old(parser).tokens(), old(parser).cursor()) {
            Ok((mark, next)) => r matches Ok(t) && final(parser).cursor() == next && t.start
                == inner.start && t.end == mark.end && t.item.deep_view() == non_null(
                inner.item.deep_view(),
            ),
            Err(e) => r matches Err(x) && x.deep_view() == e,
        },
{
    let mark = match parser.expect(&Token::ExclamationMark) {
        Ok(t) => t,
        Err(e) => { return Err(e); },
    };
    let wrapped = match inner.item {
        Type::Named(name) => Type::NonNullNamed(name),
        Type::List(l) => Type::NonNullList(l),
        t => t,
    };
    Ok(Spanning::start_end(&inner.start, &mark.end, wrapped))
}

fn parse_base_type(parser: &mut Parser) -> (r: Result<Spanning<Type>, Spanning<ParseError>>)
    requires
        old(parser).wf(),
    ensures
        kept(old(parser), final(parser)),
        agrees(r, final(parser).cursor(), spec_base_type(old(parser).tokens(), old(parser).cursor())),
        r matches Ok(t) ==> covers(
            old(parser).tokens(),
            old(parser).cursor(),
            final(parser).cursor(),
            t.start,
            t.end,
        ),
    decreases old(parser).tokens().len() - old(parser).cursor(), 0int,
{
    match parser.skip(&Token::BracketOpen) {
        Err(e) => Err(e),
        Ok(Some(open)) => {
            let inner = match parse_type_reference(parser) {
                Ok(t) => t,
                Err(e) => { return Err(e); },
            };
            let close = match parser.expect(&Token::BracketClose) {
                Ok(t) => t,
                Err(e) => { return Err(e); },
            };
            Ok(Spanning::start_end(&open.start, &close.end, Type::List(Box::new(inner.item))))
        },
        Ok(None) => {
            let name = match parser.expect_name() {
                Ok(n) => n,
                Err(e) => { return Err(e); },
            };
            Ok(Spanning::start_end(&name.start, &name.end, Type::Named(name.item)))
        },
    }
}

/// Parses a reference to a type.
pub fn parse_type_reference(parser: &mut Parser) -> (r: Result<
    Spanning<Type>,
    Spanning<ParseError>,
>)
    requires
        old(parser).wf(),
    ensures
        kept(old(parser), final(parser)),
        agrees(r, final(parser).cursor(), spec_type(old(parser).tokens(), old(parser).cursor())),
        r matches Ok(t) ==> covers(
            old(parser).tokens(),
            old(parser).cursor(),
            final(parser).cursor(),
            t.start,
            t.end,
        ) && spanned_ok(t.deep_view(), text_len(old(parser).tokens())),
    decreases old(parser).tokens().len() - old(parser).cursor(), 1int,
{
    let ghost tokens = parser.tokens();
    let ghost at = parser.cursor();
    let base = match parse_base_type(parser) {
        Ok(t) => t,
        Err(e) => { return Err(e); },
    };
    let t = if parser.peek().item.same(&Token::ExclamationMark) {
        match wrap_non_null(parser, base) {
            Ok(t) => t,
            Err(e) => { return Err(e); },
        }
    } else {
        base
    };
    proof {
        lemma_covered_span(tokens, at, parser.cursor(), t.start, t.end);
    }
    Ok(t)
}

fn parse_argument(parser: &mut Parser) -> (r: Result<
    (Spanning<String>, Spanning<InputValue>),
    Spanning<ParseError>,
>)
    requires
        old(parser).wf(),
    ensures
        kept(old(parser), final(parser)),
        agrees(r, final(parser).cursor(), spec_argument(old(parser).tokens(), old(parser).cursor())),
        r matches Ok(a) ==> {
            &&& old(parser).cursor() < final(parser).cursor()
            &&& spanned_ok(a.0.deep_view(), text_len(old(parser).tokens()))
            &&& value_ok(a.1.deep_view(), text_len(old(parser).tokens()))
        },
{
    let ghost tokens = parser.tokens();
    let ghost at = parser.cursor();
    let name = match parser.expect_name() {
        Ok(n) => n,
        Err(e) => { return Err(e); },
    };
    proof {
        lemma_covered_span(tokens, at, parser.cursor(), name.start, name.end);
    }
    match parser.expect(&Token::Colon) {
        Ok(_) => {},
        Err(e) => { return Err(e); },
    }
    let value = match parse_value_literal(parser, false) {
        Ok(v) => v,
        Err(e) => { return Err(e); },
    };
    Ok((name, value))
}

#[verifier::rlimit(50)]
fn parse_arguments(parser: &mut Parser) -> (r: Result<
    Option<Spanning<Arguments>>,
    Spanning<ParseError>,
>)
    requires
        old(parser).wf(),
    ensures
        kept(old(parser), final(parser)),
        agrees(r, final(parser).cursor(), spec_arguments(old(parser).tokens(), old(parser).cursor())),
        r matches Ok(a) ==> {
            &&& covers_if_some(old(parser).tokens(), old(parser).cursor(), final(parser).cursor(), a)
            &&& arguments_ok(a.deep_view(), text_len(old(parser).tokens()))
        },
{
    let ghost tokens = parser.tokens();
    let ghost at = parser.cursor();
    let ghost limit = text_len(tokens);
    if !parser.peek().item.same(&Token::ParenOpen) {
        return Ok(None);
    }
    let open = match parser.expect(&Token::ParenOpen) {
        Ok(t) => t,
        Err(e) => { return Err(e); },
    };
    let mut items: Vec<(Spanning<String>, Spanning<InputValue>)> = Vec::new();
    proof {
        assert(items.deep_view() =~= Seq::empty());
    }
    loop
        invariant
            parser.wf(),
            parser.tokens() == tokens,
            tokens == old(parser).tokens(),
            at == old(parser).cursor(),
            limit == text_len(tokens),
            0 <= at < parser.cursor(),
            open.start == tokens[at].start,
            tokens[at].item == TokenView::ParenOpen,
            spec_argument_items(tokens, at + 1, Seq::empty()) == spec_argument_items(
                tokens,
                parser.cursor(),
                items.deep_view(),
            ),
            forall|i: int|
                0 <= i < items.deep_view().len() ==> spanned_ok(
                    (#[trigger] items.deep_view()[i]).0,
                    limit,
                ) && value_ok(items.deep_view()[i].1, limit),
        decreases tokens.len() - parser.cursor(),
    {
        let argument = match parse_argument(parser) {
            Ok(a) => a,
            Err(e) => { return Err(e); },
        };
        let ghost before = items.deep_view();
        items.push(argument);
        proof {
            assert(items.deep_view() =~= before.push(argument.deep_view()));
        }
        match parser.skip(&Token::ParenClose) {
            Err(e) => { return Err(e); },
            Ok(Some(close)) => {
                let a = Spanning::start_end(&open.start, &close.end, Arguments { items });
                proof {
                    lemma_covered_span(tokens, at, parser.cursor(), a.start, a.end);
                }
                return Ok(Some(a));
            },
            Ok(None) => {},
        }
    }
}

#[verifier::rlimit(50)]
fn parse_directive(parser: &mut Parser) -> (r: Result<Spanning<Directive>, Spanning<ParseError>>)
    requires
        old(parser).wf(),
    ensures
        kept(old(parser), final(parser)),
        agrees(r, final(parser).cursor(), spec_directive(old(parser).tokens(), old(parser).cursor())),
        r matches Ok(d) ==> {
            &&& covers(
                old(parser).tokens(),
                old(parser).cursor(),
                final(parser).cursor(),
                d.start,
                d.end,
            )
            &&& directive_ok(d.deep_view(), text_len(old(parser).tokens()))
        },
{
    let ghost tokens = parser.tokens();
    let ghost at = parser.cursor();
    let sign = match parser.expect(&Token::At) {
        Ok(t) => t,
        Err(e) => { return Err(e); },
    };
    let ghost at1 = parser.cursor();
    let name = match parser.expect_name() {
        Ok(n) => n,
        Err(e) => { return Err(e); },
    };
    proof {
        lemma_covered_span(tokens, at1, parser.cursor(), name.start, name.end);
    }
    let arguments = match parse_arguments(parser) {
        Ok(a) => a,
        Err(e) => { return Err(e); },
    };
    let end = match &arguments {
        Some(a) => a.end,
        None => name.end,
    };
    let d = Spanning::start_end(&sign.start, &end, Directive { name, arguments });
    proof {
        lemma_covered_span(tokens, at, parser.cursor(), d.start, d.end);
    }
    Ok(d)
}

#[verifier::rlimit(50)]
fn parse_directives(parser: &mut Parser) -> (r: Result<
    Option<Spanning<Vec<Spanning<Directive>>>>,
    Spanning<ParseError>,
>)
    requires
        old(parser).wf(),
    ensures
        kept(old(parser), final(parser)),
        agrees(r, final(parser).cursor(), spec_directives(old(parser).tokens(), old(parser).cursor())),
        r matches Ok(d) ==> {
            &&& covers_if_some(old(parser).tokens(), old(parser).cursor(), final(parser).cursor(), d)
            &&& directives_ok(unspanned(d.deep_view()), text_len(old(parser).tokens()))
        },
{
    let ghost tokens = parser.tokens();
    let ghost at = parser.cursor();
    let ghost limit = text_len(tokens);
    if !parser.peek().item.same(&Token::At) {
        return Ok(None);
    }
    let start = parser.peek().start;
    let mut end = start;
    let mut items: Vec<Spanning<Directive>> = Vec::new();
    proof {
        assert(items.deep_view() =~= Seq::empty());
    }
    loop
        invariant
            parser.wf(),
            parser.tokens() == tokens,
            tokens == old(parser).tokens(),
            at == old(parser).cursor(),
            limit == text_len(tokens),
            0 <= at <= parser.cursor(),
            start == tokens[at].start,
            tokens[at].item is At,
            tokens[parser.cursor()].item is At,
            spec_directive_run(tokens, at, Seq::empty()) == spec_directive_run(
                tokens,
                parser.cursor(),
                items.deep_view(),
            ),
            items@.len() == 0 ==> parser.cursor() == at,
            items@.len() > 0 ==> covers(tokens, at, parser.cursor(), start, end)
                && items.deep_view().first().start == start && items.deep_view().last().end
                == end,
            forall|i: int|
                0 <= i < items.deep_view().len() ==> directive_ok(
                    #[trigger] items.deep_view()[i],
                    limit,
                ),
        decreases tokens.len() - parser.cursor(),
    {
        let directive = match parse_directive(parser) {
            Ok(d) => d,
            Err(e) => { return Err(e); },
        };
        end = directive.end;
        let ghost before = items.deep_view();
        items.push(directive);
        proof {
            assert(items.deep_view() =~= before.push(directive.deep_view()));
        }
        if !parser.peek().item.same(&Token::At) {
            return Ok(Some(Spanning::start_end(&start, &end, items)));
        }
    }
}

#[verifier::rlimit(50)]
fn parse_variable_definition(parser: &mut Parser) -> (r: Result<
    (Spanning<String>, VariableDefinition),
    Spanning<ParseError>,
>)
    requires
        old(parser).wf(),
    ensures
        kept(old(parser), final(parser)),
        agrees(
            r,
            final(parser).cursor(),
            spec_variable_definition(old(parser).tokens(), old(parser).cursor()),
        ),
        r matches Ok(d) ==> {
            &&& old(parser).cursor() < final(parser).cursor()
            &&& spanned_ok(d.0.deep_view(), text_len(old(parser).tokens()))
            &&& spanned_ok(d.1.deep_view().var_type, text_len(old(parser).tokens()))
            &&& d.1.deep_view().default_value matches Some(value) ==> value_ok(
                value,
                text_len(old(parser).tokens()),
            ) && is_constant(value.item)
        },
{
    let ghost tokens = parser.tokens();
    let ghost at = parser.cursor();
    let dollar = match parser.expect(&Token::Dollar) {
        Ok(t) => t,
        Err(e) => { return Err(e); },
    };
    let name = match parser.expect_name() {
        Ok(n) => n,
        Err(e) => { return Err(e); },
    };
    proof {
        lemma_covered_span(tokens, at, parser.cursor(), dollar.start, name.end);
    }
    match parser.expect(&Token::Colon) {
        Ok(_) => {},
        Err(e) => { return Err(e); },
    }
    let var_type = match parse_type_reference(parser) {
        Ok(t) => t,
        Err(e) => { return Err(e); },
    };
    let default_value = match parser.skip(&Token::Equals) {
        Err(e) => { return Err(e); },
        Ok(Some(_)) => {
            match parse_value_literal(parser, true) {
                Ok(v) => Some(v),
                Err(e) => { return Err(e); },
            }
        },
        Ok(None) => None,
    };
    Ok(
        (
            Spanning::start_end(&dollar.start, &name.end, name.item),
            VariableDefinition { var_type, default_value },
        ),
    )
}

#[verifier::rlimit(50)]
fn parse_variable_definitions(parser: &mut Parser) -> (r: Result<
    Option<Spanning<VariableDefinitions>>,
    Spanning<ParseError>,
>)
    requires
        old(parser).wf(),
    ensures
        kept(old(parser), final(parser)),
        agrees(
            r,
            final(parser).cursor(),
            spec_variable_definitions(old(parser).tokens(), old(parser).cursor()),
        ),
        r matches Ok(v) ==> {
            &&& covers_if_some(old(parser).tokens(), old(parser).cursor(), final(parser).cursor(), v)
            &&& variable_definitions_ok(v.deep_view(), text_len(old(parser).tokens()))
        },
{
    let ghost tokens = parser.tokens();
    let ghost at = parser.cursor();
    let ghost limit = text_len(tokens);
    if !parser.peek().item.same(&Token::ParenOpen) {
        return Ok(None);
    }
    let open = match parser.expect(&Token::ParenOpen) {
        Ok(t) => t,
        Err(e) => { return Err(e); },
    };
    let mut items: Vec<(Spanning<String>, VariableDefinition)> = Vec::new();
    proof {
        assert(items.deep_view() =~= Seq::empty());
    }
    loop
        invariant
            parser.wf(),
            parser.tokens() == tokens,
            tokens == old(parser).tokens(),
            at == old(parser).cursor(),
            limit == text_len(tokens),
            0 <= at < parser.cursor(),
            open.start == tokens[at].start,
            tokens[at].item == TokenView::ParenOpen,
            spec_variable_definition_items(tokens, at + 1, Seq::empty())
                == spec_variable_definition_items(tokens, parser.cursor(), items.deep_view()),
            forall|i: int|
                0 <= i < items.deep_view().len() ==> {
                    &&& spanned_ok((#[trigger] items.deep_view()[i]).0, limit)
                    &&& spanned_ok(items.deep_view()[i].1.var_type, limit)
                    &&& items.deep_view()[i].1.default_value matches Some(value) ==> value_ok(
                        value,
                        limit,
                    ) && is_constant(value.item)
                },
        decreases tokens.len() - parser.cursor(),
    {
        let definition = match parse_variable_definition(parser) {
            Ok(d) => d,
            Err(e) => { return Err(e); },
        };
        let ghost before = items.deep_view();
        items.push(definition);
        proof {
            assert(items.deep_view() =~= before.push(definition.deep_view()));
        }
        match parser.skip(&Token::ParenClose) {
            Err(e) => { return Err(e); },
            Ok(Some(close)) => {
                let v = Spanning::start_end(&open.start, &close.end, VariableDefinitions { items });
                proof {
                    lemma_covered_span(tokens, at, parser.cursor(), v.start, v.end);
                }
                return Ok(Some(v));
            },
            Ok(None) => {},
        }
    }
}

/// A selection set if an opening brace stands at `at`, and nothing
/// otherwise.
pub open spec fn spec_optional_selection_set(tokens: Tokens, at: int) -> crate::parser::Parsed<
    Option<Spanning<Seq<SelectionView>>>,
> {
    if tokens[at].item is CurlyOpen {
        match spec_selection_set(tokens, at) {
            Err(e) => Err(e),
            Ok((set, next)) => Ok((Some(set), next)),
        }
    } else {
        Ok((None, at))
    }
}

fn parse_optional_selection_set(parser: &mut Parser) -> (r: Result<
    Option<Spanning<Vec<Selection>>>,
    Spanning<ParseError>,
>)
    requires
        old(parser).wf(),
    ensures
        kept(old(parser), final(parser)),
        agrees(
            r,
            final(parser).cursor(),
            spec_optional_selection_set(old(parser).tokens(), old(parser).cursor()),
        ),
        r matches Ok(s) ==> {
            &&& covers_if_some(old(parser).tokens(), old(parser).cursor(), final(parser).cursor(), s)
            &&& s matches Some(set) ==> selections_ok(
                set.deep_view().item,
                text_len(old(parser).tokens()),
            )
        },
    decreases old(parser).tokens().len() - old(parser).cursor(), 1int,
{
    if parser.peek().item.same(&Token::CurlyOpen) {
        match parse_selection_set(parser) {
            Ok(set) => Ok(Some(set)),
            Err(e) => Err(e),
        }
    } else {
        Ok(None)
    }
}

#[verifier::rlimit(50)]
fn parse_selection_set(parser: &mut Parser) -> (r: Result<
    Spanning<Vec<Selection>>,
    Spanning<ParseError>,
>)
    requires
        old(parser).wf(),
    ensures
        kept(old(parser), final(parser)),
        agrees(
            r,
            final(parser).cursor(),
            spec_selection_set(old(parser).tokens(), old(parser).cursor()),
        ),
        r matches Ok(s) ==> {
            &&& covers(
                old(parser).tokens(),
                old(parser).cursor(),
                final(parser).cursor(),
                s.start,
                s.end,
            )
            &&& selections_ok(s.deep_view().item, text_len(old(parser).tokens()))
        },
    decreases old(parser).tokens().len() - old(parser).cursor(), 0int,
{
    let ghost tokens = parser.tokens();
    let ghost at = parser.cursor();
    let ghost limit = text_len(tokens);
    let open = match parser.expect(&Token::CurlyOpen) {
        Ok(t) => t,
        Err(e) => { return Err(e); },
    };
    let mut items: Vec<Selection> = Vec::new();
    proof {
        assert(items.deep_view() =~= Seq::empty());
    }
    loop
        invariant
            parser.wf(),
            parser.tokens() == tokens,
            tokens == old(parser).tokens(),
            at == old(parser).cursor(),
            limit == text_len(tokens),
            0 <= at < parser.cursor(),
            open.start == tokens[at].start,
            tokens[at].item is CurlyOpen,
            spec_selections(tokens, at + 1, Seq::empty()) == spec_selections(
                tokens,
                parser.cursor(),
                items.deep_view(),
            ),
            forall|i: int|
                0 <= i < items.deep_view().len() ==> selection_ok(
                    #[trigger] items.deep_view()[i],
                    limit,
                ),
        decreases tokens.len() - parser.cursor(),
    {
        let selection = match parse_selection(parser) {
            Ok(s) => s,
            Err(e) => { return Err(e); },
        };
        let ghost before = items.deep_view();
        items.push(selection);
        proof {
            assert(items.deep_view() =~= before.push(selection.deep_view()));
        }
        match parser.skip(&Token::CurlyClose) {
            Err(e) => { return Err(e); },
            Ok(Some(close)) => {
                let s = Spanning::start_end(&open.start, &close.end, items);
                proof {
                    lemma_covered_span(tokens, at, parser.cursor(), s.start, s.end);
                }
                return Ok(s);
            },
            Ok(None) => {},
        }
    }
}

fn parse_selection(parser: &mut Parser) -> (r: Result<Selection, Spanning<ParseError>>)
    requires
        old(parser).wf(),
    ensures
        kept(old(parser), final(parser)),
        agrees(r, final(parser).cursor(), spec_selection(old(parser).tokens(), old(parser).cursor())),
        r matches Ok(s) ==> {
            &&& old(parser).cursor() < final(parser).cursor()
            &&& selection_ok(s.deep_view(), text_len(old(parser).tokens()))
        },
    decreases old(parser).tokens().len() - old(parser).cursor(), 4int,
{
    if parser.peek().item.same(&Token::Ellipsis) {
        parse_fragment(parser)
    } else {
        match parse_field(parser) {
            Ok(field) => {
                proof {
                    lemma_field_view(field);
                }
                Ok(Selection::Field(field))
            },
            Err(e) => Err(e),
        }
    }
}

/// Reads what is left of an inline fragment once its ellipsis, at the
/// token with index `from`, and its type condition have been read.
#[verifier::rlimit(50)]
fn parse_inline_fragment(
    parser: &mut Parser,
    start: SourcePosition,
    type_condition: Option<Spanning<String>>,
    Ghost(from): Ghost<int>,
) -> (r: Result<Selection, Spanning<ParseError>>)
    requires
        old(parser).wf(),
        0 <= from < old(parser).cursor(),
        start == old(parser).tokens()[from].start,
        type_condition matches Some(name) ==> spanned_ok(
            name.deep_view(),
            text_len(old(parser).tokens()),
        ),
    ensures
        kept(old(parser), final(parser)),
        agrees(
            r,
            final(parser).cursor(),
            spec_inline_fragment(
                old(parser).tokens(),
                from,
                old(parser).cursor(),
                type_condition.deep_view(),
            ),
        ),
        r matches Ok(s) ==> {
            &&& old(parser).cursor() < final(parser).cursor()
            &&& selection_ok(s.deep_view(), text_len(old(parser).tokens()))
        },
    decreases old(parser).tokens().len() - old(parser).cursor(), 2int,
{
    let ghost tokens = parser.tokens();
    let directives = match parse_directives(parser) {
        Ok(d) => d,
        Err(e) => { return Err(e); },
    };
    let set = match parse_selection_set(parser) {
        Ok(s) => s,
        Err(e) => { return Err(e); },
    };
    let fragment = Spanning::start_end(
        &start,
        &set.end,
        InlineFragment {
            type_condition,
            directives: match directives {
                Some(d) => Some(d.item),
                None => None,
            },
            selection_set: set.item,
        },
    );
    proof {
        lemma_inline_fragment_view(fragment);
        lemma_covered_span(tokens, from, parser.cursor(), fragment.start, fragment.end);
    }
    Ok(Selection::InlineFragment(fragment))
}

#[verifier::rlimit(50)]
fn parse_fragment(parser: &mut Parser) -> (r: Result<Selection, Spanning<ParseError>>)
    requires
        old(parser).wf(),
    ensures
        kept(old(parser), final(parser)),
        agrees(
            r,
            final(parser).cursor(),
            spec_fragment_selection(old(parser).tokens(), old(parser).cursor()),
        ),
        r matches Ok(s) ==> {
            &&& old(parser).cursor() < final(parser).cursor()
            &&& selection_ok(s.deep_view(), text_len(old(parser).tokens()))
        },
    decreases old(parser).tokens().len() - old(parser).cursor(), 3int,
{
    let ghost tokens = parser.tokens();
    let ghost at = parser.cursor();
    let ellipsis = match parser.expect(&Token::Ellipsis) {
        Ok(t) => t,
        Err(e) => { return Err(e); },
    };
    let start = ellipsis.start;
    let ghost at1 = parser.cursor();
    let is_name = match &parser.peek().item {
        Token::Name(_) => true,
        _ => false,
    };
    if parser.peek().item.is_name("on") {
        match parser.next() {
            Ok(_) => {},
            Err(e) => { return Err(e); },
        }
        let ghost at2 = parser.cursor();
        let name = match parser.expect_name() {
            Ok(n) => n,
            Err(e) => { return Err(e); },
        };
        proof {
            lemma_covered_span(tokens, at2, parser.cursor(), name.start, name.end);
        }
        parse_inline_fragment(parser, start, Some(name), Ghost(at))
    } else if is_name {
        let name = match parser.expect_name() {
            Ok(n) => n,
            Err(e) => { return Err(e); },
        };
        proof {
            lemma_covered_span(tokens, at1, parser.cursor(), name.start, name.end);
        }
        let directives = match parse_directives(parser) {
            Ok(d) => d,
            Err(e) => { return Err(e); },
        };
        let end = match &directives {
            Some(d) => d.end,
            None => name.end,
        };
        let spread = Spanning::start_end(
            &start,
            &end,
            FragmentSpread {
                name,
                directives: match directives {
                    Some(d) => Some(d.item),
                    None => None,
                },
            },
        );
        proof {
            lemma_covered_span(tokens, at, parser.cursor(), spread.start, spread.end);
        }
        Ok(Selection::FragmentSpread(spread))
    } else if parser.peek().item.same(&Token::CurlyOpen) || parser.peek().item.same(&Token::At) {
        parse_inline_fragment(parser, start, None, Ghost(at))
    } else {
        Err(parser.unexpected())
    }
}

#[verifier::rlimit(50)]
fn parse_field(parser: &mut Parser) -> (r: Result<Spanning<Field>, Spanning<ParseError>>)
    requires
        old(parser).wf(),
    ensures
        kept(old(parser), final(parser)),
        agrees(r, final(parser).cursor(), spec_field(old(parser).tokens(), old(parser).cursor())),
        r matches Ok(f) ==> {
            &&& covers(
                old(parser).tokens(),
                old(parser).cursor(),
                final(parser).cursor(),
                f.start,
                f.end,
            )
            &&& selection_ok(
                SelectionView::Field(f.deep_view()),
                text_len(old(parser).tokens()),
            )
        },
    decreases old(parser).tokens().len() - old(parser).cursor(), 3int,
{
    let ghost tokens = parser.tokens();
    let ghost at = parser.cursor();
    let first = match parser.expect_name() {
        Ok(n) => n,
        Err(e) => { return Err(e); },
    };
    let start = first.start;
    proof {
        lemma_covered_span(tokens, at, parser.cursor(), first.start, first.end);
    }
    let colon = match parser.skip(&Token::Colon) {
        Ok(c) => c,
        Err(e) => { return Err(e); },
    };
    let ghost at2 = parser.cursor();
    let (alias, name) = match colon {
        Some(_) => {
            let name = match parser.expect_name() {
                Ok(n) => n,
                Err(e) => { return Err(e); },
            };
            proof {
                lemma_covered_span(tokens, at2, parser.cursor(), name.start, name.end);
            }
            (Some(first), name)
        },
        None => (None, first),
    };
    let arguments = match parse_arguments(parser) {
        Ok(a) => a,
        Err(e) => { return Err(e); },
    };
    let directives = match parse_directives(parser) {
        Ok(d) => d,
        Err(e) => { return Err(e); },
    };
    let ghost at5 = parser.cursor();
    let set = match parse_optional_selection_set(parser) {
        Ok(s) => s,
        Err(e) => { return Err(e); },
    };
    let end = match (&set, &directives, &arguments) {
        (Some(s), _, _) => s.end,
        (None, Some(d), _) => d.end,
        (None, None, Some(a)) => a.end,
        (None, None, None) => name.end,
    };
    let field = Spanning::start_end(
        &start,
        &end,
        Field {
            alias,
            name,
            arguments,
            directives: match directives {
                Some(d) => Some(d.item),
                None => None,
            },
            selection_set: match set {
                Some(s) => Some(s.item),
                None => None,
            },
        },
    );
    proof {
        lemma_covered_span(tokens, at, parser.cursor(), field.start, field.end);
    }
    Ok(field)
}

fn parse_operation_type(parser: &mut Parser) -> (r: Result<OperationType, Spanning<ParseError>>)
    requires
        old(parser).wf(),
    ensures
        kept(old(parser), final(parser)),
        agrees(
            r,
            final(parser).cursor(),
            spec_operation_type(old(parser).tokens(), old(parser).cursor()),
        ),
{
    let operation_type = if parser.peek().item.is_name("query") {
        OperationType::Query
    } else if parser.peek().item.is_name("mutation") {
        OperationType::Mutation
    } else {
        return Err(parser.unexpected());
    };
    match parser.next() {
        Ok(_) => Ok(operation_type),
        Err(e) => Err(e),
    }
}

#[verifier::rlimit(50)]
fn parse_operation_definition(parser: &mut Parser) -> (r: Result<
    Spanning<Operation>,
    Spanning<ParseError>,
>)
    requires
        old(parser).wf(),
    ensures
        kept(old(parser), final(parser)),
        agrees(r, final(parser).cursor(), spec_operation(old(parser).tokens(), old(parser).cursor())),
        r matches Ok(o) ==> {
            &&& old(parser).cursor() < final(parser).cursor()
            &&& definition_ok(
                DefinitionView::Operation(o.deep_view()),
                text_len(old(parser).tokens()),
            )
        },
{
    let ghost tokens = parser.tokens();
    let ghost at = parser.cursor();
    if parser.peek().item.same(&Token::CurlyOpen) {
        let set = match parse_selection_set(parser) {
            Ok(s) => s,
            Err(e) => { return Err(e); },
        };
        proof {
            lemma_covered_span(tokens, at, parser.cursor(), set.start, set.end);
        }
        Ok(
            Spanning::start_end(
                &set.start,
                &set.end,
                Operation {
                    operation_type: OperationType::Query,
                    name: None,
                    variable_definitions: None,
                    directives: None,
                    selection_set: set.item,
                },
            ),
        )
    } else {
        let start = parser.peek().start;
        let operation_type = match parse_operation_type(parser) {
            Ok(t) => t,
            Err(e) => { return Err(e); },
        };
        let ghost at1 = parser.cursor();
        let is_name = match &parser.peek().item {
            Token::Name(_) => true,
            _ => false,
        };
        let name = if is_name {
            match parser.expect_name() {
                Ok(n) => {
                    proof {
                        lemma_covered_span(tokens, at1, parser.cursor(), n.start, n.end);
                    }
                    Some(n)
                },
                Err(e) => { return Err(e); },
            }
        } else {
            None
        };
        let variable_definitions = match parse_variable_definitions(parser) {
            Ok(v) => v,
            Err(e) => { return Err(e); },
        };
        let directives = match parse_directives(parser) {
            Ok(d) => d,
            Err(e) => { return Err(e); },
        };
        let set = match parse_selection_set(parser) {
            Ok(s) => s,
            Err(e) => { return Err(e); },
        };
        let operation = Spanning::start_end(
            &start,
            &set.end,
            Operation {
                operation_type,
                name,
                variable_definitions,
                directives: match directives {
                    Some(d) => Some(d.item),
                    None => None,
                },
                selection_set: set.item,
            },
        );
        proof {
            lemma_covered_span(tokens, at, parser.cursor(), operation.start, operation.end);
        }
        Ok(operation)
    }
}

#[verifier::rlimit(50)]
fn parse_fragment_definition(parser: &mut Parser) -> (r: Result<
    Spanning<Fragment>,
    Spanning<ParseError>,
>)
    requires
        old(parser).wf(),
    ensures
        kept(old(parser), final(parser)),
        agrees(r, final(parser).cursor(), spec_fragment(old(parser).tokens(), old(parser).cursor())),
        r matches Ok(f) ==> {
            &&& old(parser).cursor() < final(parser).cursor()
            &&& definition_ok(
                DefinitionView::Fragment(f.deep_view()),
                text_len(old(parser).tokens()),
            )
        },
{
    let ghost tokens = parser.tokens();
    let ghost at = parser.cursor();
    let word = match parser.expect(&Token::Name("fragment".to_string())) {
        Ok(t) => t,
        Err(e) => { return Err(e); },
    };
    let ghost at1 = parser.cursor();
    let name = match parser.expect_name() {
        Ok(n) => n,
        Err(e) => { return Err(e); },
    };
    proof {
        lemma_covered_span(tokens, at1, parser.cursor(), name.start, name.end);
    }
    if name.item.as_str().eq("on") {
        return Err(
            Spanning::start_end(
                &name.start,
                &name.end,
                ParseError::UnexpectedToken(Token::Name(name.item)),
            ),
        );
    }
    match parser.expect(&Token::Name("on".to_string())) {
        Ok(_) => {},
        Err(e) => { return Err(e); },
    }
    let ghost at3 = parser.cursor();
    let type_condition = match parser.expect_name() {
        Ok(n) => n,
        Err(e) => { return Err(e); },
    };
    proof {
        lemma_covered_span(tokens, at3, parser.cursor(), type_condition.start, type_condition.end);
    }
    let directives = match parse_directives(parser) {
        Ok(d) => d,
        Err(e) => { return Err(e); },
    };
    let set = match parse_selection_set(parser) {
        Ok(s) => s,
        Err(e) => { return Err(e); },
    };
    let fragment = Spanning::start_end(
        &word.start,
        &set.end,
        Fragment {
            name,
            type_condition,
            directives: match directives {
                Some(d) => Some(d.item),
                None => None,
            },
            selection_set: set.item,
        },
    );
    proof {
        lemma_covered_span(tokens, at, parser.cursor(), fragment.start, fragment.end);
    }
    Ok(fragment)
}

#[verifier::rlimit(50)]
fn parse_definition(parser: &mut Parser) -> (r: Result<Definition, Spanning<ParseError>>)
    requires
        old(parser).wf(),
    ensures
        kept(old(parser), final(parser)),
        agrees(r, final(parser).cursor(), spec_definition(old(parser).tokens(), old(parser).cursor())),
        r matches Ok(d) ==> {
            &&& old(parser).cursor() < final(parser).cursor()
            &&& definition_ok(d.deep_view(), text_len(old(parser).tokens()))
        },
{
    if parser.peek().item.same(&Token::CurlyOpen) || parser.peek().item.is_name("query")
        || parser.peek().item.is_name("mutation") {
        match parse_operation_definition(parser) {
            Ok(operation) => Ok(Definition::Operation(operation)),
            Err(e) => Err(e),
        }
    } else if parser.peek().item.is_name("fragment") {
        match parse_fragment_definition(parser) {
            Ok(fragment) => Ok(Definition::Fragment(fragment)),
            Err(e) => Err(e),
        }
    } else {
        Err(parser.unexpected())
    }
}

/// Parses the definitions from the lookahead token up to the end of the
/// text: at least one.
#[verifier::rlimit(50)]
pub fn parse_document(parser: &mut Parser) -> (r: Result<Document, Spanning<ParseError>>)
    requires
        old(parser).wf(),
    ensures
        kept(old(parser), final(parser)),
        agrees(
            r,
            final(parser).cursor(),
            spec_definitions(old(parser).tokens(), old(parser).cursor(), Seq::empty()),
        ),
        r matches Ok(d) ==> {
            &&& final(parser).tokens()[final(parser).cursor()].item is EndOfFile
            &&& document_ok(d.deep_view(), text_len(old(parser).tokens()))
        },
{
    let ghost tokens = parser.tokens();
    let ghost at = parser.cursor();
    let ghost limit = text_len(tokens);
    let mut definitions: Vec<Definition> = Vec::new();
    proof {
        assert(definitions.deep_view() =~= Seq::empty());
    }
    loop
        invariant
            parser.wf(),
            parser.tokens() == tokens,
            tokens == old(parser).tokens(),
            at == old(parser).cursor(),
            limit == text_len(tokens),
            0 <= at <= parser.cursor(),
            spec_definitions(tokens, at, Seq::empty()) == spec_definitions(
                tokens,
                parser.cursor(),
                definitions.deep_view(),
            ),
            forall|i: int|
                0 <= i < definitions.deep_view().len() ==> definition_ok(
                    #[trigger] definitions.deep_view()[i],
                    limit,
                ),
        decreases tokens.len() - parser.cursor(),
    {
        let definition = match parse_definition(parser) {
            Ok(d) => d,
            Err(e) => { return Err(e); },
        };
        let ghost before = definitions.deep_view();
        definitions.push(definition);
        proof {
            assert(definitions.deep_view() =~= before.push(definition.deep_view()));
        }
        if parser.peek().item.same(&Token::EndOfFile) {
            return Ok(definitions);
        }
    }
}

/// What is made of a construct that must be all there is in a text: the
/// construct, if the end of the text follows it, and else the failure that
/// the token after it is.
pub open spec fn spec_whole<T>(tokens: Tokens, parsed: crate::parser::Parsed<T>) -> Result<
    T,
    Spanning<ParseErrorView>,
> {
    match parsed {
        Err(e) => Err(e),
        Ok((v, next)) => {
            if tokens[next].item is EndOfFile {
                Ok(v)
            } else {
                Err(unexpected_at(tokens, next))
            }
        },
    }
}

/// What parsing makes of a text whose tokens are `tokens`: where not even
/// one token can be read, the failure of the lexer; else what `rule` makes
/// of the tokens.
pub open spec fn spec_source<T>(
    tokens: Tokens,
    rule: spec_fn(Tokens) -> Result<T, Spanning<ParseErrorView>>,
) -> Result<T, Spanning<ParseErrorView>> {
    if tokens.len() == 0 {
        match tokens.failure {
            Some(e) => Err(lexer_failure(e)),
            None => rule(tokens),
        }
    } else {
        rule(tokens)
    }
}

/// The document that the text `src` is: its tokens, read as one or more
/// definitions; or the first failure, of the lexer or of the parser,
/// whichever comes to light first as the text is read.
pub open spec fn spec_document_source(src: Seq<char>) -> Result<
    Seq<DefinitionView>,
    Spanning<ParseErrorView>,
> {
    spec_source(tokens_of(src), |tokens: Tokens| spec_document(tokens))
}

/// The value that the text `src` is, and nothing after it. No variable
/// may stand in it.
pub open spec fn spec_value_source(src: Seq<char>) -> Result<
    Spanning<crate::ast::InputValueView>,
    Spanning<ParseErrorView>,
> {
    spec_source(
        tokens_of(src),
        |tokens: Tokens| spec_whole(tokens, spec_value(tokens, 0, true)),
    )
}

/// The type that the text `src` is, and nothing after it.
pub open spec fn spec_type_source(src: Seq<char>) -> Result<
    Spanning<crate::ast::TypeView>,
    Spanning<ParseErrorView>,
> {
    spec_source(tokens_of(src), |tokens: Tokens| spec_whole(tokens, spec_type(tokens, 0)))
}

/// Whether the result of parsing a whole text is the one specified.
pub open spec fn same_result<T: DeepView>(
    r: Result<T, Spanning<ParseError>>,
    s: Result<T::V, Spanning<ParseErrorView>>,
) -> bool {
    match s {
        Ok(v) => r matches Ok(x) && x.deep_view() == v,
        Err(e) => r matches Err(x) && x.deep_view() == e,
    }
}

/// Reads the tokens of `s` into a parser.
fn parser_for(s: &str) -> (r: Result<Parser, Spanning<ParseError>>)
    ensures
        ({
            let tokens = tokens_of(s@);
            if tokens.len() == 0 {
                tokens.failure matches Some(e) && r matches Err(x) && x.deep_view() == lexer_failure(e)
            } else {
                &&& r matches Ok(parser)
                &&& parser.wf()
                &&& parser.tokens() == tokens
                &&& parser.cursor() == 0
                &&& tokens.failure is None ==> text_len(tokens) == s.spec_bytes().len()
            }
        }),
{
    let mut lexer = Lexer::new(s);
    match Parser::new(&mut lexer) {
        Ok(parser) => Ok(parser),
        Err(e) => Err(Spanning::start_end(&e.start, &e.end, ParseError::LexerError(e.item))),
    }
}

/// Parses a document: one or more operations and fragments.
///
/// The result is the document that the grammar makes of the tokens of
/// `s`, or the first failure that comes to light as `s` is read from its
/// start, with the parser looking one token ahead of what it has taken. In
/// a document that is returned, every range of text lies within the bytes
/// of `s` and ends no earlier than it starts, and every selection set
/// holds at least one selection.
pub fn parse_document_source(s: &str) -> (r: Result<Document, Spanning<ParseError>>)
    ensures
        same_result(r, spec_document_source(s@)),
        r matches Ok(d) ==> document_ok(d.deep_view(), s.spec_bytes().len()),
{
    let mut parser = match parser_for(s) {
        Ok(p) => p,
        Err(e) => { return Err(e); },
    };
    parse_document(&mut parser)
}

/// Parses a value that stands alone in `s`. No variable may stand in it.
pub fn parse_value_source(s: &str) -> (r: Result<Spanning<InputValue>, Spanning<ParseError>>)
    ensures
        same_result(r, spec_value_source(s@)),
        r matches Ok(v) ==> value_ok(v.deep_view(), s.spec_bytes().len()) && is_constant(
            v.deep_view().item,
        ),
{
    let mut parser = match parser_for(s) {
        Ok(p) => p,
        Err(e) => { return Err(e); },
    };
    let value = match parse_value_literal(&mut parser, true) {
        Ok(v) => v,
        Err(e) => { return Err(e); },
    };
    if parser.peek().item.same(&Token::EndOfFile) {
        Ok(value)
    } else {
        Err(parser.unexpected())
    }
}

/// Parses a reference to a type that stands alone in `s`.
pub fn parse_type(s: &str) -> (r: Result<Spanning<Type>, Spanning<ParseError>>)
    ensures
        same_result(r, spec_type_source(s@)),
        r matches Ok(t) ==> spanned_ok(t.deep_view(), s.spec_bytes().len()),
{
    let mut parser = match parser_for(s) {
        Ok(p) => p,
        Err(e) => { return Err(e); },
    };
    let t = match parse_type_reference(&mut parser) {
        Ok(t) => t,
        Err(e) => { return Err(e); },
    };
    if parser.peek().item.same(&Token::EndOfFile) {
        Ok(t)
    } else {
        Err(parser.unexpected())
    }
}

} // verus!
