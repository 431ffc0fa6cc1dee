//! What holds of the grammar whatever the text.
//!
//! The main law here is that parsing does not look at where the tokens
//! stand: texts with the same tokens, laid out differently, are parsed to
//! the same tree but for the places in it, or refused for the same reason.

use vstd::prelude::*;
use crate::ast::{DefinitionView, InputValueView, SelectionView};
use crate::bare::{
    lemma_bare_list, lemma_bare_object, lemma_bare_push, lemma_bare_selections, Bare,
};
use crate::grammar::{
    spec_argument, spec_argument_items, spec_arguments, spec_base_type, spec_definition,
    spec_definitions, spec_directive, spec_directive_run, spec_directives, spec_document,
    spec_field, spec_fragment, spec_fragment_selection, spec_inline_fragment, spec_operation,
    spec_operation_type, spec_selection, spec_selection_set, spec_selection_set_after,
    spec_selections, spec_type, spec_variable_definition, spec_variable_definition_items,
    spec_variable_definitions, ArgumentView, DirectiveViews, NameView,
};
use crate::parser::{spec_expect_name, spec_skip, ParseErrorView, Parsed};
use crate::document::spec_document_source;
use crate::lexer::{tokens_of, Tokens};
use crate::position::byte_len;
use crate::reading::lemma_written_document_is_read_back;
use crate::results::lemma_document_is_in_order;
use crate::shape::document_ok;
use crate::stream::lemma_tokens_in_order;
use crate::written::document_written;
use crate::position::Spanning;
use crate::token::TokenView;
use crate::value::{
    spec_list_items, spec_object_field, spec_object_fields, spec_value, FieldViews,
};

verus! {

/// Whether two texts that were read to their ends were read into the same
/// tokens, wherever these stand in the texts.
pub open spec fn same_items(t1: Tokens, t2: Tokens) -> bool {
    &&& t1.failure is None
    &&& t2.failure is None
    &&& t1.len() == t2.len()
    &&& t1.len() > 0
    &&& t1[t1.len() - 1].item is EndOfFile
    &&& forall|k: int| 0 <= k < t1.len() ==> (#[trigger] t1.items[k]).item == t2.items[k].item
}

/// Whether two results of a rule are the same but for places: the same
/// value without places, up to the same token; or failures of the same
/// kind.
pub open spec fn alike<T: Bare>(r1: Parsed<T>, r2: Parsed<T>) -> bool {
    match (r1, r2) {
        (Ok((v1, n1)), Ok((v2, n2))) => n1 == n2 && v1.bare() == v2.bare(),
        (Err(e1), Err(e2)) => e1.item == e2.item,
        _ => false,
    }
}

/// Whether a rule, where it succeeds, stops at a token from `from` on;
/// the token `EndOfFile` is the last at which it can stop.
pub open spec fn within<T>(r: Parsed<T>, from: int, len: nat) -> bool {
    match r {
        Ok((_, next)) => from <= next < len,
        Err(_) => true,
    }
}

proof fn lemma_value(t1: Tokens, t2: Tokens, at: int, constant: bool)
    requires
        same_items(t1, t2),
        0 <= at < t1.len(),
    ensures
        alike(spec_value(t1, at, constant), spec_value(t2, at, constant)),
        within(spec_value(t1, at, constant), at + 1, t1.len()),
    decreases t1.len() - at, 0int,
{
    assert(t1[at].item == t2[at].item);
    match t1[at].item {
        TokenView::BracketOpen => {
            lemma_list_items(t1, t2, at + 1, constant, Seq::empty(), Seq::empty());
            match (
                spec_list_items(t1, at + 1, constant, Seq::empty()),
                spec_list_items(t2, at + 1, constant, Seq::empty()),
            ) {
                (Ok(((i1, _), _)), Ok(((i2, _), _))) => {
                    lemma_bare_list(i1);
                    lemma_bare_list(i2);
                },
                _ => {},
            }
        },
        TokenView::CurlyOpen => {
            lemma_object_fields(t1, t2, at + 1, constant, Seq::empty(), Seq::empty());
            match (
                spec_object_fields(t1, at + 1, constant, Seq::empty()),
                spec_object_fields(t2, at + 1, constant, Seq::empty()),
            ) {
                (Ok(((f1, _), _)), Ok(((f2, _), _))) => {
                    lemma_bare_object(f1);
                    lemma_bare_object(f2);
                },
                _ => {},
            }
        },
        TokenView::Dollar => {
            if at + 1 < t1.len() {
                assert(t1[at + 1].item == t2[at + 1].item);
            }
        },
        _ => {},
    }
}

proof fn lemma_list_items(
    t1: Tokens,
    t2: Tokens,
    at: int,
    constant: bool,
    r1: Seq<Spanning<InputValueView>>,
    r2: Seq<Spanning<InputValueView>>,
)
    requires
        same_items(t1, t2),
        0 <= at,
        r1.bare() == r2.bare(),
    ensures
        alike(
            spec_list_items(t1, at, constant, r1),
            spec_list_items(t2, at, constant, r2),
        ),
        within(spec_list_items(t1, at, constant, r1), at + 1, t1.len()),
    decreases t1.len() - at, 1int,
{
    if at < t1.len() {
        assert(t1[at].item == t2[at].item);
        if spec_skip(t1, at, TokenView::BracketClose) matches Ok((None, _)) {
            lemma_value(t1, t2, at, constant);
            match (spec_value(t1, at, constant), spec_value(t2, at, constant)) {
                (Ok((v1, next)), Ok((v2, _))) => {
                    if at < next <= t1.len() {
                        lemma_bare_push(r1, v1);
                        lemma_bare_push(r2, v2);
                        lemma_list_items(t1, t2, next, constant, r1.push(v1), r2.push(v2));
                    }
                },
                _ => {},
            }
        }
    }
}

proof fn lemma_object_field(t1: Tokens, t2: Tokens, at: int, constant: bool)
    requires
        same_items(t1, t2),
        0 <= at < t1.len(),
    ensures
        alike(spec_object_field(t1, at, constant), spec_object_field(t2, at, constant)),
        within(spec_object_field(t1, at, constant), at + 1, t1.len()),
    decreases t1.len() - at, 1int,
{
    assert(t1[at].item == t2[at].item);
    if at + 1 < t1.len() {
        assert(t1[at + 1].item == t2[at + 1].item);
    }
    if at + 2 < t1.len() {
        lemma_value(t1, t2, at + 2, constant);
    }
}

proof fn lemma_object_fields(
    t1: Tokens,
    t2: Tokens,
    at: int,
    constant: bool,
    r1: FieldViews,
    r2: FieldViews,
)
    requires
        same_items(t1, t2),
        0 <= at,
        r1.bare() == r2.bare(),
    ensures
        alike(
            spec_object_fields(t1, at, constant, r1),
            spec_object_fields(t2, at, constant, r2),
        ),
        within(spec_object_fields(t1, at, constant, r1), at + 1, t1.len()),
    decreases t1.len() - at, 2int,
{
    if at < t1.len() {
        assert(t1[at].item == t2[at].item);
        if spec_skip(t1, at, TokenView::CurlyClose) matches Ok((None, _)) {
            lemma_object_field(t1, t2, at, constant);
            match (spec_object_field(t1, at, constant), spec_object_field(t2, at, constant)) {
                (Ok((f1, next)), Ok((f2, _))) => {
                    if at < next <= t1.len() {
                        lemma_bare_push(r1, f1);
                        lemma_bare_push(r2, f2);
                        lemma_object_fields(t1, t2, next, constant, r1.push(f1), r2.push(f2));
                    }
                },
                _ => {},
            }
        }
    }
}

proof fn lemma_base_type(t1: Tokens, t2: Tokens, at: int)
    requires
        same_items(t1, t2),
        0 <= at < t1.len(),
    ensures
        alike(spec_base_type(t1, at), spec_base_type(t2, at)),
        within(spec_base_type(t1, at), at + 1, t1.len()),
    decreases t1.len() - at, 0int,
{
    if t1[at].item == TokenView::BracketOpen && at + 1 < t1.len() {
        lemma_type(t1, t2, at + 1);
    }
}

proof fn lemma_type(t1: Tokens, t2: Tokens, at: int)
    requires
        same_items(t1, t2),
        0 <= at < t1.len(),
    ensures
        alike(spec_type(t1, at), spec_type(t2, at)),
        within(spec_type(t1, at), at + 1, t1.len()),
    decreases t1.len() - at, 1int,
{
    lemma_base_type(t1, t2, at);
}

proof fn lemma_argument(t1: Tokens, t2: Tokens, at: int)
    requires
        same_items(t1, t2),
        0 <= at < t1.len(),
    ensures
        alike(spec_argument(t1, at), spec_argument(t2, at)),
        within(spec_argument(t1, at), at + 1, t1.len()),
{
    if at + 2 < t1.len() {
        lemma_value(t1, t2, at + 2, false);
    }
}

proof fn lemma_argument_items(
    t1: Tokens,
    t2: Tokens,
    at: int,
    r1: Seq<ArgumentView>,
    r2: Seq<ArgumentView>,
)
    requires
        same_items(t1, t2),
        0 <= at < t1.len(),
        r1.bare() == r2.bare(),
    ensures
        alike(spec_argument_items(t1, at, r1), spec_argument_items(t2, at, r2)),
        within(spec_argument_items(t1, at, r1), at + 1, t1.len()),
    decreases t1.len() - at,
{
    lemma_argument(t1, t2, at);
    match (spec_argument(t1, at), spec_argument(t2, at)) {
        (Ok((a1, next)), Ok((a2, _))) => {
            lemma_bare_push(r1, a1);
            lemma_bare_push(r2, a2);
            match spec_skip(t1, next, TokenView::ParenClose) {
                Ok((None, _)) => {
                    lemma_argument_items(t1, t2, next, r1.push(a1), r2.push(a2));
                },
                _ => {},
            }
        },
        _ => {},
    }
}

proof fn lemma_arguments(t1: Tokens, t2: Tokens, at: int)
    requires
        same_items(t1, t2),
        0 <= at < t1.len(),
    ensures
        alike(spec_arguments(t1, at), spec_arguments(t2, at)),
        within(spec_arguments(t1, at), at, t1.len()),
{
    if t1[at].item == TokenView::ParenOpen && at + 1 < t1.len() {
        lemma_argument_items(t1, t2, at + 1, Seq::empty(), Seq::empty());
    }
}

proof fn lemma_directive(t1: Tokens, t2: Tokens, at: int)
    requires
        same_items(t1, t2),
        0 <= at < t1.len(),
    ensures
        alike(spec_directive(t1, at), spec_directive(t2, at)),
        within(spec_directive(t1, at), at + 1, t1.len()),
{
    if at + 2 < t1.len() {
        lemma_arguments(t1, t2, at + 2);
    }
}

proof fn lemma_directive_run(
    t1: Tokens,
    t2: Tokens,
    at: int,
    r1: DirectiveViews,
    r2: DirectiveViews,
)
    requires
        same_items(t1, t2),
        0 <= at < t1.len(),
        r1.bare() == r2.bare(),
    ensures
        alike(spec_directive_run(t1, at, r1), spec_directive_run(t2, at, r2)),
        within(spec_directive_run(t1, at, r1), at + 1, t1.len()),
    decreases t1.len() - at,
{
    lemma_directive(t1, t2, at);
    match (spec_directive(t1, at), spec_directive(t2, at)) {
        (Ok((d1, next)), Ok((d2, _))) => {
            lemma_bare_push(r1, d1);
            lemma_bare_push(r2, d2);
            if t1[next].item is At {
                lemma_directive_run(t1, t2, next, r1.push(d1), r2.push(d2));
            }
        },
        _ => {},
    }
}

proof fn lemma_directives(t1: Tokens, t2: Tokens, at: int)
    requires
        same_items(t1, t2),
        0 <= at < t1.len(),
    ensures
        alike(spec_directives(t1, at), spec_directives(t2, at)),
        within(spec_directives(t1, at), at, t1.len()),
{
    if t1[at].item is At {
        lemma_directive_run(t1, t2, at, Seq::empty(), Seq::empty());
    }
}

#[verifier::rlimit(50)]
proof fn lemma_variable_definition(t1: Tokens, t2: Tokens, at: int)
    requires
        same_items(t1, t2),
        0 <= at < t1.len(),
    ensures
        alike(spec_variable_definition(t1, at), spec_variable_definition(t2, at)),
        within(spec_variable_definition(t1, at), at + 1, t1.len()),
{
    if at + 3 < t1.len() {
        lemma_type(t1, t2, at + 3);
        match spec_type(t1, at + 3) {
            Ok((_, at4)) => {
                if at4 + 1 < t1.len() {
                    lemma_value(t1, t2, at4 + 1, true);
                }
            },
            Err(_) => {},
        }
    }
}

proof fn lemma_variable_definition_items(
    t1: Tokens,
    t2: Tokens,
    at: int,
    r1: Seq<(NameView, crate::ast::VariableDefinitionView)>,
    r2: Seq<(NameView, crate::ast::VariableDefinitionView)>,
)
    requires
        same_items(t1, t2),
        0 <= at < t1.len(),
        r1.bare() == r2.bare(),
    ensures
        alike(
            spec_variable_definition_items(t1, at, r1),
            spec_variable_definition_items(t2, at, r2),
        ),
        within(spec_variable_definition_items(t1, at, r1), at + 1, t1.len()),
    decreases t1.len() - at,
{
    lemma_variable_definition(t1, t2, at);
    match (spec_variable_definition(t1, at), spec_variable_definition(t2, at)) {
        (Ok((d1, next)), Ok((d2, _))) => {
            lemma_bare_push(r1, d1);
            lemma_bare_push(r2, d2);
            match spec_skip(t1, next, TokenView::ParenClose) {
                Ok((None, _)) => {
                    lemma_variable_definition_items(t1, t2, next, r1.push(d1), r2.push(d2));
                },
                _ => {},
            }
        },
        _ => {},
    }
}

proof fn lemma_variable_definitions(t1: Tokens, t2: Tokens, at: int)
    requires
        same_items(t1, t2),
        0 <= at < t1.len(),
    ensures
        alike(spec_variable_definitions(t1, at), spec_variable_definitions(t2, at)),
        within(spec_variable_definitions(t1, at), at, t1.len()),
{
    if t1[at].item == TokenView::ParenOpen && at + 1 < t1.len() {
        lemma_variable_definition_items(t1, t2, at + 1, Seq::empty(), Seq::empty());
    }
}

proof fn lemma_selection_set(t1: Tokens, t2: Tokens, at: int)
    requires
        same_items(t1, t2),
        0 <= at < t1.len(),
    ensures
        alike(spec_selection_set(t1, at), spec_selection_set(t2, at)),
        within(spec_selection_set(t1, at), at + 1, t1.len()),
    decreases t1.len() - at, 0int,
{
    if t1[at].item is CurlyOpen {
        lemma_selections(t1, t2, at + 1, Seq::empty(), Seq::empty());
    }
}

proof fn lemma_selections(
    t1: Tokens,
    t2: Tokens,
    at: int,
    r1: Seq<SelectionView>,
    r2: Seq<SelectionView>,
)
    requires
        same_items(t1, t2),
        0 <= at,
        r1.bare() == r2.bare(),
    ensures
        alike(spec_selections(t1, at, r1), spec_selections(t2, at, r2)),
        within(spec_selections(t1, at, r1), at + 1, t1.len()),
    decreases t1.len() - at, 5int,
{
    if at < t1.len() {
        lemma_selection(t1, t2, at);
        match (spec_selection(t1, at), spec_selection(t2, at)) {
            (Ok((s1, next)), Ok((s2, _))) => {
                lemma_bare_push(r1, s1);
                lemma_bare_push(r2, s2);
                match spec_skip(t1, next, TokenView::CurlyClose) {
                    Ok((None, _)) => {
                        lemma_selections(t1, t2, next, r1.push(s1), r2.push(s2));
                    },
                    _ => {},
                }
            },
            _ => {},
        }
    }
}

proof fn lemma_selection(t1: Tokens, t2: Tokens, at: int)
    requires
        same_items(t1, t2),
        0 <= at < t1.len(),
    ensures
        alike(spec_selection(t1, at), spec_selection(t2, at)),
        within(spec_selection(t1, at), at + 1, t1.len()),
    decreases t1.len() - at, 4int,
{
    if t1[at].item is Ellipsis {
        lemma_fragment_selection(t1, t2, at);
    } else {
        lemma_field(t1, t2, at);
    }
}

proof fn lemma_selection_set_after(t1: Tokens, t2: Tokens, from: int, at: int)
    requires
        same_items(t1, t2),
        0 <= from < t1.len(),
    ensures
        alike(spec_selection_set_after(t1, from, at), spec_selection_set_after(t2, from, at)),
        within(spec_selection_set_after(t1, from, at), at + 1, t1.len()),
    decreases t1.len() - from, 1int,
{
    if from < at < t1.len() {
        lemma_selection_set(t1, t2, at);
    }
}

proof fn lemma_inline_fragment(
    t1: Tokens,
    t2: Tokens,
    from: int,
    at: int,
    c1: Option<NameView>,
    c2: Option<NameView>,
)
    requires
        same_items(t1, t2),
        0 <= from < at < t1.len(),
        c1.bare() == c2.bare(),
    ensures
        alike(spec_inline_fragment(t1, from, at, c1), spec_inline_fragment(t2, from, at, c2)),
        within(spec_inline_fragment(t1, from, at, c1), at + 1, t1.len()),
    decreases t1.len() - from, 2int,
{
    lemma_directives(t1, t2, at);
    match spec_directives(t1, at) {
        Ok((_, at1)) => {
            lemma_selection_set_after(t1, t2, from, at1);
            match (
                spec_selection_set_after(t1, from, at1),
                spec_selection_set_after(t2, from, at1),
            ) {
                (Ok((s1, _)), Ok((s2, _))) => {
                    lemma_bare_selections(s1.item);
                    lemma_bare_selections(s2.item);
                },
                _ => {},
            }
        },
        Err(_) => {},
    }
}

#[verifier::rlimit(50)]
proof fn lemma_fragment_selection(t1: Tokens, t2: Tokens, at: int)
    requires
        same_items(t1, t2),
        0 <= at < t1.len(),
    ensures
        alike(spec_fragment_selection(t1, at), spec_fragment_selection(t2, at)),
        within(spec_fragment_selection(t1, at), at + 1, t1.len()),
    decreases t1.len() - at, 3int,
{
    if t1[at].item is Ellipsis {
        let at1 = at + 1;
        match t1[at1].item {
            TokenView::Name(word) => {
                if word == "on"@ {
                    match (spec_expect_name(t1, at1 + 1), spec_expect_name(t2, at1 + 1)) {
                        (Ok((n1, at2)), Ok((n2, _))) => {
                            lemma_inline_fragment(t1, t2, at, at2, Some(n1), Some(n2));
                        },
                        _ => {},
                    }
                } else {
                    lemma_directives(t1, t2, at1 + 1);
                }
            },
            TokenView::CurlyOpen => {
                lemma_inline_fragment(t1, t2, at, at1, None, None);
            },
            TokenView::At => {
                lemma_inline_fragment(t1, t2, at, at1, None, None);
            },
            _ => {},
        }
    }
}

#[verifier::rlimit(50)]
proof fn lemma_field(t1: Tokens, t2: Tokens, at: int)
    requires
        same_items(t1, t2),
        0 <= at < t1.len(),
    ensures
        alike(spec_field(t1, at), spec_field(t2, at)),
        within(spec_field(t1, at), at + 1, t1.len()),
    decreases t1.len() - at, 3int,
{
    match spec_expect_name(t1, at) {
        Ok((_, at1)) => match spec_skip(t1, at1, TokenView::Colon) {
            Ok((colon, at2)) => {
                let named = if colon is Some {
                    spec_expect_name(t1, at2)
                } else {
                    spec_expect_name(t1, at)
                };
                match named {
                    Ok(_) => {
                        let at3 = if colon is Some {
                            at2 + 1
                        } else {
                            at2
                        };
                        lemma_arguments(t1, t2, at3);
                        match spec_arguments(t1, at3) {
                            Ok((_, at4)) => {
                                lemma_directives(t1, t2, at4);
                                match spec_directives(t1, at4) {
                                    Ok((_, at5)) => {
                                        if t1[at5].item is CurlyOpen {
                                            lemma_selection_set_after(t1, t2, at, at5);
                                            match (
                                                spec_selection_set_after(t1, at, at5),
                                                spec_selection_set_after(t2, at, at5),
                                            ) {
                                                (Ok((s1, _)), Ok((s2, _))) => {
                                                    lemma_bare_selections(s1.item);
                                                    lemma_bare_selections(s2.item);
                                                },
                                                _ => {},
                                            }
                                        }
                                    },
                                    Err(_) => {},
                                }
                            },
                            Err(_) => {},
                        }
                    },
                    Err(_) => {},
                }
            },
            Err(_) => {},
        },
        Err(_) => {},
    }
}

#[verifier::rlimit(50)]
proof fn lemma_operation(t1: Tokens, t2: Tokens, at: int)
    requires
        same_items(t1, t2),
        0 <= at < t1.len(),
    ensures
        alike(spec_operation(t1, at), spec_operation(t2, at)),
        within(spec_operation(t1, at), at + 1, t1.len()),
{
    if t1[at].item is CurlyOpen {
        lemma_selection_set(t1, t2, at);
        match (spec_selection_set(t1, at), spec_selection_set(t2, at)) {
            (Ok((s1, _)), Ok((s2, _))) => {
                lemma_bare_selections(s1.item);
                lemma_bare_selections(s2.item);
            },
            _ => {},
        }
    } else {
        match spec_operation_type(t1, at) {
            Ok((_, at1)) => {
                let at2 = if t1[at1].item is Name {
                    at1 + 1
                } else {
                    at1
                };
                lemma_variable_definitions(t1, t2, at2);
                match spec_variable_definitions(t1, at2) {
                    Ok((_, at3)) => {
                        lemma_directives(t1, t2, at3);
                        match spec_directives(t1, at3) {
                            Ok((_, at4)) => {
                                lemma_selection_set(t1, t2, at4);
                                match (spec_selection_set(t1, at4), spec_selection_set(t2, at4)) {
                                    (Ok((s1, _)), Ok((s2, _))) => {
                                        lemma_bare_selections(s1.item);
                                        lemma_bare_selections(s2.item);
                                    },
                                    _ => {},
                                }
                            },
                            Err(_) => {},
                        }
                    },
                    Err(_) => {},
                }
            },
            Err(_) => {},
        }
    }
}

#[verifier::rlimit(50)]
proof fn lemma_fragment(t1: Tokens, t2: Tokens, at: int)
    requires
        same_items(t1, t2),
        0 <= at < t1.len(),
    ensures
        alike(spec_fragment(t1, at), spec_fragment(t2, at)),
        within(spec_fragment(t1, at), at + 1, t1.len()),
{
    if at + 4 < t1.len() {
        lemma_directives(t1, t2, at + 4);
        match spec_directives(t1, at + 4) {
            Ok((_, at5)) => {
                lemma_selection_set(t1, t2, at5);
                match (spec_selection_set(t1, at5), spec_selection_set(t2, at5)) {
                    (Ok((s1, _)), Ok((s2, _))) => {
                        lemma_bare_selections(s1.item);
                        lemma_bare_selections(s2.item);
                    },
                    _ => {},
                }
            },
            Err(_) => {},
        }
    }
}

proof fn lemma_definition(t1: Tokens, t2: Tokens, at: int)
    requires
        same_items(t1, t2),
        0 <= at < t1.len(),
    ensures
        alike(spec_definition(t1, at), spec_definition(t2, at)),
        within(spec_definition(t1, at), at + 1, t1.len()),
{
    lemma_operation(t1, t2, at);
    lemma_fragment(t1, t2, at);
}

proof fn lemma_definitions(
    t1: Tokens,
    t2: Tokens,
    at: int,
    r1: Seq<DefinitionView>,
    r2: Seq<DefinitionView>,
)
    requires
        same_items(t1, t2),
        0 <= at < t1.len(),
        r1.bare() == r2.bare(),
    ensures
        alike(spec_definitions(t1, at, r1), spec_definitions(t2, at, r2)),
        within(spec_definitions(t1, at, r1), at + 1, t1.len()),
    decreases t1.len() - at,
{
    lemma_definition(t1, t2, at);
    match (spec_definition(t1, at), spec_definition(t2, at)) {
        (Ok((d1, next)), Ok((d2, _))) => {
            lemma_bare_push(r1, d1);
            lemma_bare_push(r2, d2);
            if !(t1[next].item is EndOfFile) {
                lemma_definitions(t1, t2, next, r1.push(d1), r2.push(d2));
            }
        },
        _ => {},
    }
}

/// The result of parsing a whole text, without places: the tree without
/// places, or the kind of the failure.
pub open spec fn bare_result<T: Bare>(r: Result<T, Spanning<ParseErrorView>>) -> Result<
    T,
    ParseErrorView,
> {
    match r {
        Ok(v) => Ok(v.bare()),
        Err(e) => Err(e.item),
    }
}

/// Parsing does not look at the layout of a text. Two texts with the same
/// tokens, whatever white space, commas and comments stand between them,
/// are both documents or both refused: documents that differ at most in
/// the places of their parts, or failures of the same kind.
pub proof fn lemma_document_ignores_places(t1: Tokens, t2: Tokens)
    requires
        same_items(t1, t2),
    ensures
        bare_result(spec_document(t1)) == bare_result(spec_document(t2)),
{
    lemma_definitions(t1, t2, 0, Seq::empty(), Seq::empty());
}

/// The layout of a text does not matter. Of two texts that the lexer
/// reads to their ends, and into the same tokens, both are documents or
/// both are refused: documents that differ at most in the places of their
/// parts, or failures of the same kind.
pub proof fn lemma_layout_does_not_matter(s1: Seq<char>, s2: Seq<char>)
    requires
        same_items(tokens_of(s1), tokens_of(s2)),
    ensures
        bare_result(spec_document_source(s1)) == bare_result(spec_document_source(s2)),
{
    lemma_document_ignores_places(tokens_of(s1), tokens_of(s2));
}

/// A value is read alike from texts with the same tokens.
pub proof fn lemma_value_ignores_places(t1: Tokens, t2: Tokens, at: int, constant: bool)
    requires
        same_items(t1, t2),
        0 <= at < t1.len(),
    ensures
        alike(spec_value(t1, at, constant), spec_value(t2, at, constant)),
{
    lemma_value(t1, t2, at, constant);
}

/// A type is read alike from texts with the same tokens.
pub proof fn lemma_type_ignores_places(t1: Tokens, t2: Tokens, at: int)
    requires
        same_items(t1, t2),
        0 <= at < t1.len(),
    ensures
        alike(spec_type(t1, at), spec_type(t2, at)),
{
    lemma_type(t1, t2, at);
}

/// How many of the definitions `d` are operations.
pub open spec fn operation_count(d: Seq<DefinitionView>) -> nat
    decreases d.len(),
{
    if d.len() == 0 {
        0
    } else if d.last() is Operation {
        operation_count(d.drop_last()) + 1
    } else {
        operation_count(d.drop_last())
    }
}

/// How many of the definitions `d` are fragments.
pub open spec fn fragment_count(d: Seq<DefinitionView>) -> nat
    decreases d.len(),
{
    if d.len() == 0 {
        0
    } else if d.last() is Fragment {
        fragment_count(d.drop_last()) + 1
    } else {
        fragment_count(d.drop_last())
    }
}

/// A document has as many definitions as it has operations and fragments
/// together.
pub proof fn lemma_definition_count(d: Seq<DefinitionView>)
    ensures
        d.len() == operation_count(d) + fragment_count(d),
    decreases d.len(),
{
    if d.len() > 0 {
        lemma_definition_count(d.drop_last());
    }
}

/// Every document that a text is parsed to is in order. It has at least
/// one definition. Every range of text in it ends no earlier than it
/// starts, and no later than the text does, in bytes. Every selection set
/// in it holds at least one selection, and what else `document_ok` says
/// holds of it.
pub proof fn lemma_parsed_document_is_in_order(s: Seq<char>)
    requires
        byte_len(s) <= usize::MAX,
    ensures
        spec_document_source(s) matches Ok(d) ==> document_ok(d, byte_len(s)),
{
    lemma_tokens_in_order(s);
    if tokens_of(s).len() > 0 {
        lemma_document_is_in_order(tokens_of(s));
    }
}

/// The round trip. Let a text be parsed to a document, and let the
/// document be written down again as any text whose tokens spell it, in
/// whatever layout. That text is parsed to the same document, but for the
/// places in it.
pub proof fn lemma_round_trip(s: Seq<char>, written: Seq<char>)
    requires
        byte_len(s) <= usize::MAX,
        spec_document_source(s) is Ok,
        document_written(tokens_of(written), spec_document_source(s)->Ok_0),
    ensures
        bare_result(spec_document_source(written)) == bare_result(spec_document_source(s)),
{
    lemma_parsed_document_is_in_order(s);
    lemma_written_document_is_read_back(
        tokens_of(written),
        spec_document_source(s)->Ok_0,
        byte_len(s),
    );
}

} // verus!
