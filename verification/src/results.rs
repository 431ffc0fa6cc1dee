//! What the grammar returns is in order: whatever tree a rule makes of the
//! tokens of a text, its ranges of text are those of the tokens it was
//! read from, and `shape` holds of it.

use vstd::prelude::*;
use crate::ast::{DefinitionView, InputValueView, SelectionView, VariableDefinitionView};
use crate::grammar::{
    spec_argument, spec_argument_items, spec_arguments, spec_base_type, spec_definition,
    spec_definitions, spec_directive, spec_directive_run, spec_directives, spec_document,
    spec_field, spec_fragment, spec_fragment_selection, spec_inline_fragment, spec_operation,
    spec_operation_type, spec_selection, spec_selection_set, spec_selection_set_after,
    spec_selections, spec_type, spec_variable_definition, spec_variable_definition_items,
    spec_variable_definitions, unspanned, ArgumentView, DirectiveViews, NameView,
};
use crate::lexer::{stream_ok, text_len, Tokens};
use crate::parser::{covers, lemma_covered_span, spec_expect_name, spec_next, spec_skip, Parsed};
use crate::position::{SourcePosition, Spanning};
use crate::shape::{
    arguments_ok, definition_ok, directive_ok, directives_ok, document_ok, is_constant,
    selection_ok, selections_ok, spanned_ok, value_ok, variable_definitions_ok,
};
use crate::token::TokenView;
use crate::value::{
    spec_list_items, spec_object_field, spec_object_fields, spec_value, FieldViews,
};

verus! {

/// Whether a rule, where it succeeds, has read at least one token from
/// `at` on, and `v` spans the tokens that it has read.
pub open spec fn spans<T>(t: Tokens, at: int, r: Parsed<Spanning<T>>) -> bool {
    r matches Ok((v, next)) ==> covers(t, at, next, v.start, v.end)
}

/// Whether a rule for a list, where it succeeds, has read at least one
/// token from `at` on, and ends where the last of them ends.
pub open spec fn closes<T>(t: Tokens, at: int, r: Parsed<(T, SourcePosition)>) -> bool {
    r matches Ok(((_, end), next)) ==> at < next < t.len() && end == t[next - 1].end
}

/// Whether a rule for what may be absent, where it succeeds, has read
/// nothing and found nothing, or spans the tokens that it has read.
pub open spec fn spans_if_some<T>(t: Tokens, at: int, r: Parsed<Option<Spanning<T>>>) -> bool {
    r matches Ok((v, next)) ==> match v {
        Some(v) => covers(t, at, next, v.start, v.end),
        None => next == at,
    }
}

/// Whether the fields of an object, or the arguments of a field, are all
/// in order.
pub open spec fn fields_ok(fields: FieldViews, limit: nat, constant: bool) -> bool {
    forall|i: int|
        0 <= i < fields.len() ==> {
            &&& spanned_ok((#[trigger] fields[i]).0, limit)
            &&& value_ok(fields[i].1, limit)
            &&& constant ==> is_constant(fields[i].1.item)
        }
}

/// Whether the items of a list are all in order.
pub open spec fn values_ok(
    items: Seq<Spanning<InputValueView>>,
    limit: nat,
    constant: bool,
) -> bool {
    forall|i: int|
        0 <= i < items.len() ==> value_ok(#[trigger] items[i], limit) && (constant ==> is_constant(
            items[i].item,
        ))
}

/// Whether the definitions of variables are all in order.
pub open spec fn variables_ok(d: Seq<(NameView, VariableDefinitionView)>, limit: nat) -> bool {
    forall|i: int|
        0 <= i < d.len() ==> {
            &&& spanned_ok((#[trigger] d[i]).0, limit)
            &&& spanned_ok(d[i].1.var_type, limit)
            &&& d[i].1.default_value matches Some(value) ==> value_ok(value, limit) && is_constant(
                value.item,
            )
        }
}

/// Whether what was read of a name, where it was read, spans the one
/// token it was read from.
proof fn lemma_name_ok(t: Tokens, at: int)
    requires
        stream_ok(t),
        0 <= at < t.len(),
    ensures
        spans(t, at, spec_expect_name(t, at)),
        spec_expect_name(t, at) matches Ok((name, next)) ==> next == at + 1 && spanned_ok(
            name,
            text_len(t),
        ),
        spans(t, at, spec_next(t, at)),
{
    if at + 1 < t.len() {
        lemma_covered_span(t, at, at + 1, t[at].start, t[at].end);
    }
}

#[verifier::rlimit(50)]
proof fn lemma_value_ok(t: Tokens, at: int, constant: bool)
    requires
        stream_ok(t),
        0 <= at < t.len(),
    ensures
        spans(t, at, spec_value(t, at, constant)),
        spec_value(t, at, constant) matches Ok((v, _)) ==> value_ok(v, text_len(t)) && (constant
            ==> is_constant(v.item)),
    decreases t.len() - at, 0int,
{
    lemma_name_ok(t, at);
    match t[at].item {
        TokenView::BracketOpen => {
            lemma_list_items_ok(t, at + 1, constant, Seq::empty());
        },
        TokenView::CurlyOpen => {
            lemma_object_fields_ok(t, at + 1, constant, Seq::empty());
        },
        TokenView::Dollar => {
            if at + 1 < t.len() {
                lemma_name_ok(t, at + 1);
            }
        },
        _ => {},
    }
    match spec_value(t, at, constant) {
        Ok((v, next)) => {
            lemma_covered_span(t, at, next, v.start, v.end);
        },
        Err(_) => {},
    }
}

proof fn lemma_list_items_ok(
    t: Tokens,
    at: int,
    constant: bool,
    read: Seq<Spanning<InputValueView>>,
)
    requires
        stream_ok(t),
        0 <= at,
        values_ok(read, text_len(t), constant),
    ensures
        closes(t, at, spec_list_items(t, at, constant, read)),
        spec_list_items(t, at, constant, read) matches Ok(((all, _), _)) ==> values_ok(
            all,
            text_len(t),
            constant,
        ),
    decreases t.len() - at, 1int,
{
    if at < t.len() {
        match spec_skip(t, at, TokenView::BracketClose) {
            Ok((None, _)) => {
                lemma_value_ok(t, at, constant);
                match spec_value(t, at, constant) {
                    Ok((v, next)) => {
                        lemma_list_items_ok(t, next, constant, read.push(v));
                    },
                    Err(_) => {},
                }
            },
            _ => {},
        }
    }
}

proof fn lemma_object_field_ok(t: Tokens, at: int, constant: bool)
    requires
        stream_ok(t),
        0 <= at < t.len(),
    ensures
        spec_object_field(t, at, constant) matches Ok((f, next)) ==> at < next < t.len()
            && spanned_ok(f.0, text_len(t)) && value_ok(f.1, text_len(t)) && (constant
            ==> is_constant(f.1.item)) && f.1.end == t[next - 1].end && f.0.start == t[at].start,
    decreases t.len() - at, 1int,
{
    lemma_name_ok(t, at);
    if at + 2 < t.len() {
        lemma_value_ok(t, at + 2, constant);
    }
}

proof fn lemma_object_fields_ok(t: Tokens, at: int, constant: bool, read: FieldViews)
    requires
        stream_ok(t),
        0 <= at,
        fields_ok(read, text_len(t), constant),
    ensures
        closes(t, at, spec_object_fields(t, at, constant, read)),
        spec_object_fields(t, at, constant, read) matches Ok(((all, _), _)) ==> fields_ok(
            all,
            text_len(t),
            constant,
        ),
    decreases t.len() - at, 2int,
{
    if at < t.len() {
        match spec_skip(t, at, TokenView::CurlyClose) {
            Ok((None, _)) => {
                lemma_object_field_ok(t, at, constant);
                match spec_object_field(t, at, constant) {
                    Ok((f, next)) => {
                        lemma_object_fields_ok(t, next, constant, read.push(f));
                    },
                    Err(_) => {},
                }
            },
            _ => {},
        }
    }
}

proof fn lemma_base_type_ok(t: Tokens, at: int)
    requires
        stream_ok(t),
        0 <= at < t.len(),
    ensures
        spans(t, at, spec_base_type(t, at)),
    decreases t.len() - at, 0int,
{
    lemma_name_ok(t, at);
    if t[at].item == TokenView::BracketOpen && at + 1 < t.len() {
        lemma_type_ok(t, at + 1);
    }
}

proof fn lemma_type_ok(t: Tokens, at: int)
    requires
        stream_ok(t),
        0 <= at < t.len(),
    ensures
        spans(t, at, spec_type(t, at)),
        spec_type(t, at) matches Ok((ty, _)) ==> spanned_ok(ty, text_len(t)),
    decreases t.len() - at, 1int,
{
    lemma_base_type_ok(t, at);
    match spec_type(t, at) {
        Ok((ty, next)) => {
            lemma_covered_span(t, at, next, ty.start, ty.end);
        },
        Err(_) => {},
    }
}

proof fn lemma_argument_ok(t: Tokens, at: int)
    requires
        stream_ok(t),
        0 <= at < t.len(),
    ensures
        spec_argument(t, at) matches Ok((a, next)) ==> at < next < t.len() && spanned_ok(
            a.0,
            text_len(t),
        ) && value_ok(a.1, text_len(t)),
{
    lemma_name_ok(t, at);
    if at + 2 < t.len() {
        lemma_value_ok(t, at + 2, false);
    }
}

proof fn lemma_argument_items_ok(t: Tokens, at: int, read: Seq<ArgumentView>)
    requires
        stream_ok(t),
        0 <= at < t.len(),
        fields_ok(read, text_len(t), false),
    ensures
        closes(t, at, spec_argument_items(t, at, read)),
        spec_argument_items(t, at, read) matches Ok(((all, _), _)) ==> all.len() > 0 && fields_ok(
            all,
            text_len(t),
            false,
        ),
    decreases t.len() - at,
{
    lemma_argument_ok(t, at);
    match spec_argument(t, at) {
        Ok((a, next)) => {
            match spec_skip(t, next, TokenView::ParenClose) {
                Ok((None, _)) => {
                    lemma_argument_items_ok(t, next, read.push(a));
                },
                _ => {},
            }
        },
        Err(_) => {},
    }
}

proof fn lemma_arguments_ok(t: Tokens, at: int)
    requires
        stream_ok(t),
        0 <= at < t.len(),
    ensures
        spans_if_some(t, at, spec_arguments(t, at)),
        spec_arguments(t, at) matches Ok((a, _)) ==> arguments_ok(a, text_len(t)),
{
    if t[at].item == TokenView::ParenOpen && at + 1 < t.len() {
        lemma_argument_items_ok(t, at + 1, Seq::empty());
        match spec_arguments(t, at) {
            Ok((Some(a), next)) => {
                lemma_covered_span(t, at, next, a.start, a.end);
            },
            _ => {},
        }
    }
}

proof fn lemma_directive_ok(t: Tokens, at: int)
    requires
        stream_ok(t),
        0 <= at < t.len(),
    ensures
        spans(t, at, spec_directive(t, at)),
        spec_directive(t, at) matches Ok((d, _)) ==> directive_ok(d, text_len(t)),
{
    if at + 1 < t.len() {
        lemma_name_ok(t, at + 1);
    }
    if at + 2 < t.len() {
        lemma_arguments_ok(t, at + 2);
    }
    match spec_directive(t, at) {
        Ok((d, next)) => {
            lemma_covered_span(t, at, next, d.start, d.end);
        },
        Err(_) => {},
    }
}

proof fn lemma_directive_run_ok(t: Tokens, at: int, from: int, read: DirectiveViews)
    requires
        stream_ok(t),
        0 <= from <= at < t.len(),
        forall|i: int| 0 <= i < read.len() ==> directive_ok(#[trigger] read[i], text_len(t)),
        read.len() > 0 ==> from < at && read.first().start == t[from].start,
        read.len() == 0 ==> from == at,
    ensures
        spec_directive_run(t, at, read) matches Ok((all, next)) ==> {
            &&& all.len() > 0
            &&& forall|i: int| 0 <= i < all.len() ==> directive_ok(#[trigger] all[i], text_len(t))
            &&& covers(t, from, next, all.first().start, all.last().end)
        },
    decreases t.len() - at,
{
    lemma_directive_ok(t, at);
    match spec_directive(t, at) {
        Ok((d, next)) => {
            assert(read.push(d).first() == if read.len() > 0 {
                read.first()
            } else {
                d
            });
            if at < next < t.len() && t[next].item is At {
                lemma_directive_run_ok(t, next, from, read.push(d));
            }
        },
        Err(_) => {},
    }
}

proof fn lemma_directives_ok(t: Tokens, at: int)
    requires
        stream_ok(t),
        0 <= at < t.len(),
    ensures
        spans_if_some(t, at, spec_directives(t, at)),
        spec_directives(t, at) matches Ok((d, _)) ==> directives_ok(unspanned(d), text_len(t)),
{
    if t[at].item is At {
        lemma_directive_run_ok(t, at, at, Seq::empty());
    }
}

proof fn lemma_variable_definition_ok(t: Tokens, at: int)
    requires
        stream_ok(t),
        0 <= at < t.len(),
    ensures
        spec_variable_definition(t, at) matches Ok((d, next)) ==> at < next < t.len()
            && variables_ok(seq![d], text_len(t)),
{
    if at + 1 < t.len() {
        lemma_name_ok(t, at + 1);
    }
    if at + 2 < t.len() {
        lemma_covered_span(t, at, at + 2, t[at].start, t[at + 1].end);
    }
    if at + 3 < t.len() {
        lemma_type_ok(t, at + 3);
        match spec_type(t, at + 3) {
            Ok((_, at4)) => {
                if at4 + 1 < t.len() {
                    lemma_value_ok(t, at4 + 1, true);
                }
            },
            Err(_) => {},
        }
    }
}

proof fn lemma_variable_definition_items_ok(
    t: Tokens,
    at: int,
    read: Seq<(NameView, VariableDefinitionView)>,
)
    requires
        stream_ok(t),
        0 <= at < t.len(),
        variables_ok(read, text_len(t)),
    ensures
        closes(t, at, spec_variable_definition_items(t, at, read)),
        spec_variable_definition_items(t, at, read) matches Ok(((all, _), _)) ==> all.len() > 0
            && variables_ok(all, text_len(t)),
    decreases t.len() - at,
{
    lemma_variable_definition_ok(t, at);
    match spec_variable_definition(t, at) {
        Ok((d, next)) => {
            assert(seq![d][0] == d);
            match spec_skip(t, next, TokenView::ParenClose) {
                Ok((None, _)) => {
                    lemma_variable_definition_items_ok(t, next, read.push(d));
                },
                _ => {},
            }
        },
        Err(_) => {},
    }
}

proof fn lemma_variable_definitions_ok(t: Tokens, at: int)
    requires
        stream_ok(t),
        0 <= at < t.len(),
    ensures
        spans_if_some(t, at, spec_variable_definitions(t, at)),
        spec_variable_definitions(t, at) matches Ok((d, _)) ==> variable_definitions_ok(
            d,
            text_len(t),
        ),
{
    if t[at].item == TokenView::ParenOpen && at + 1 < t.len() {
        lemma_variable_definition_items_ok(t, at + 1, Seq::empty());
        match spec_variable_definitions(t, at) {
            Ok((Some(d), next)) => {
                lemma_covered_span(t, at, next, d.start, d.end);
            },
            _ => {},
        }
    }
}

/// Whether the selections read so far are all in order.
pub open spec fn each_selection_ok(set: Seq<SelectionView>, limit: nat) -> bool {
    forall|i: int| 0 <= i < set.len() ==> selection_ok(#[trigger] set[i], limit)
}

proof fn lemma_selection_set_ok(t: Tokens, at: int)
    requires
        stream_ok(t),
        0 <= at < t.len(),
    ensures
        spans(t, at, spec_selection_set(t, at)),
        spec_selection_set(t, at) matches Ok((set, _)) ==> selections_ok(set.item, text_len(t)),
    decreases t.len() - at, 0int,
{
    if t[at].item is CurlyOpen {
        lemma_selections_ok(t, at + 1, Seq::empty());
    }
}

proof fn lemma_selections_ok(t: Tokens, at: int, read: Seq<SelectionView>)
    requires
        stream_ok(t),
        0 <= at,
        each_selection_ok(read, text_len(t)),
    ensures
        closes(t, at, spec_selections(t, at, read)),
        spec_selections(t, at, read) matches Ok(((all, _), _)) ==> all.len() > 0
            && each_selection_ok(all, text_len(t)),
    decreases t.len() - at, 5int,
{
    if at < t.len() {
        lemma_selection_ok(t, at);
        match spec_selection(t, at) {
            Ok((s, next)) => {
                match spec_skip(t, next, TokenView::CurlyClose) {
                    Ok((None, _)) => {
                        lemma_selections_ok(t, next, read.push(s));
                    },
                    _ => {},
                }
            },
            Err(_) => {},
        }
    }
}

proof fn lemma_selection_ok(t: Tokens, at: int)
    requires
        stream_ok(t),
        0 <= at < t.len(),
    ensures
        spec_selection(t, at) matches Ok((s, next)) ==> at < next < t.len() && selection_ok(
            s,
            text_len(t),
        ),
    decreases t.len() - at, 4int,
{
    if t[at].item is Ellipsis {
        lemma_fragment_selection_ok(t, at);
    } else {
        lemma_field_ok(t, at);
    }
}

proof fn lemma_selection_set_after_ok(t: Tokens, from: int, at: int)
    requires
        stream_ok(t),
        0 <= from < t.len(),
    ensures
        spans(t, at, spec_selection_set_after(t, from, at)),
        spec_selection_set_after(t, from, at) matches Ok((set, _)) ==> from < at
            && selections_ok(set.item, text_len(t)),
    decreases t.len() - from, 1int,
{
    if from < at < t.len() {
        lemma_selection_set_ok(t, at);
    }
}

#[verifier::rlimit(50)]
proof fn lemma_inline_fragment_ok(t: Tokens, from: int, at: int, condition: Option<NameView>)
    requires
        stream_ok(t),
        0 <= from < at < t.len(),
        condition matches Some(name) ==> spanned_ok(name, text_len(t)),
    ensures
        spec_inline_fragment(t, from, at, condition) matches Ok((s, next)) ==> at < next < t.len()
            && selection_ok(s, text_len(t)),
    decreases t.len() - from, 2int,
{
    lemma_directives_ok(t, at);
    match spec_directives(t, at) {
        Ok((_, at1)) => {
            lemma_selection_set_after_ok(t, from, at1);
            match spec_selection_set_after(t, from, at1) {
                Ok((set, next)) => {
                    lemma_covered_span(t, from, next, t[from].start, set.end);
                },
                Err(_) => {},
            }
        },
        Err(_) => {},
    }
}

#[verifier::rlimit(50)]
proof fn lemma_fragment_selection_ok(t: Tokens, at: int)
    requires
        stream_ok(t),
        0 <= at < t.len(),
    ensures
        spec_fragment_selection(t, at) matches Ok((s, next)) ==> at < next < t.len()
            && selection_ok(s, text_len(t)),
    decreases t.len() - at, 3int,
{
    if t[at].item is Ellipsis && at + 1 < t.len() {
        let at1 = at + 1;
        match t[at1].item {
            TokenView::Name(word) => {
                if word == "on"@ {
                    if at1 + 1 < t.len() {
                        lemma_name_ok(t, at1 + 1);
                        match spec_expect_name(t, at1 + 1) {
                            Ok((name, at3)) => {
                                lemma_inline_fragment_ok(t, at, at3, Some(name));
                            },
                            Err(_) => {},
                        }
                    }
                } else {
                    lemma_name_ok(t, at1);
                    if at1 + 1 < t.len() {
                        lemma_directives_ok(t, at1 + 1);
                        match spec_fragment_selection(t, at) {
                            Ok((SelectionView::FragmentSpread(f), next)) => {
                                lemma_covered_span(t, at, next, f.start, f.end);
                            },
                            _ => {},
                        }
                    }
                }
            },
            TokenView::CurlyOpen => {
                lemma_inline_fragment_ok(t, at, at1, None);
            },
            TokenView::At => {
                lemma_inline_fragment_ok(t, at, at1, None);
            },
            _ => {},
        }
    }
}

#[verifier::rlimit(50)]
proof fn lemma_field_ok(t: Tokens, at: int)
    requires
        stream_ok(t),
        0 <= at < t.len(),
    ensures
        spans(t, at, spec_field(t, at)),
        spec_field(t, at) matches Ok((f, _)) ==> selection_ok(
            SelectionView::Field(f),
            text_len(t),
        ),
    decreases t.len() - at, 3int,
{
    lemma_name_ok(t, at);
    match spec_expect_name(t, at) {
        Ok((_, at1)) => match spec_skip(t, at1, TokenView::Colon) {
            Ok((colon, at2)) => {
                let named = if colon is Some {
                    spec_expect_name(t, at2)
                } else {
                    spec_expect_name(t, at)
                };
                if colon is Some {
                    lemma_name_ok(t, at2);
                }
                match named {
                    Ok(_) => {
                        let at3 = if colon is Some {
                            at2 + 1
                        } else {
                            at2
                        };
                        lemma_arguments_ok(t, at3);
                        match spec_arguments(t, at3) {
                            Ok((_, at4)) => {
                                lemma_directives_ok(t, at4);
                                match spec_directives(t, at4) {
                                    Ok((_, at5)) => {
                                        if t[at5].item is CurlyOpen {
                                            lemma_selection_set_after_ok(t, at, at5);
                                        }
                                        match spec_field(t, at) {
                                            Ok((f, next)) => {
                                                lemma_covered_span(t, at, next, f.start, f.end);
                                            },
                                            Err(_) => {},
                                        }
                                    },
                                    Err(_) => {},
                                }
                            },
                            Err(_) => {},
                        }
                    },
                    Err(_) => {},
                }
            },
            Err(_) => {},
        },
        Err(_) => {},
    }
}

#[verifier::rlimit(50)]
proof fn lemma_operation_ok(t: Tokens, at: int)
    requires
        stream_ok(t),
        0 <= at < t.len(),
    ensures
        spec_operation(t, at) matches Ok((o, next)) ==> at < next < t.len() && definition_ok(
            DefinitionView::Operation(o),
            text_len(t),
        ),
{
    if t[at].item is CurlyOpen {
        lemma_selection_set_ok(t, at);
        match spec_selection_set(t, at) {
            Ok((set, next)) => {
                lemma_covered_span(t, at, next, set.start, set.end);
            },
            Err(_) => {},
        }
    } else {
        match spec_operation_type(t, at) {
            Ok((_, at1)) => {
                lemma_name_ok(t, at1);
                let at2 = if t[at1].item is Name {
                    at1 + 1
                } else {
                    at1
                };
                if at2 < t.len() {
                    lemma_variable_definitions_ok(t, at2);
                    match spec_variable_definitions(t, at2) {
                        Ok((_, at3)) => {
                            lemma_directives_ok(t, at3);
                            match spec_directives(t, at3) {
                                Ok((_, at4)) => {
                                    lemma_selection_set_ok(t, at4);
                                    match spec_operation(t, at) {
                                        Ok((o, next)) => {
                                            lemma_covered_span(t, at, next, o.start, o.end);
                                        },
                                        Err(_) => {},
                                    }
                                },
                                Err(_) => {},
                            }
                        },
                        Err(_) => {},
                    }
                }
            },
            Err(_) => {},
        }
    }
}

#[verifier::rlimit(50)]
proof fn lemma_fragment_ok(t: Tokens, at: int)
    requires
        stream_ok(t),
        0 <= at < t.len(),
    ensures
        spec_fragment(t, at) matches Ok((f, next)) ==> at < next < t.len() && definition_ok(
            DefinitionView::Fragment(f),
            text_len(t),
        ),
{
    if at + 4 < t.len() {
        lemma_name_ok(t, at + 1);
        lemma_name_ok(t, at + 3);
        lemma_directives_ok(t, at + 4);
        match spec_directives(t, at + 4) {
            Ok((_, at5)) => {
                lemma_selection_set_ok(t, at5);
                match spec_fragment(t, at) {
                    Ok((f, next)) => {
                        lemma_covered_span(t, at, next, f.start, f.end);
                    },
                    Err(_) => {},
                }
            },
            Err(_) => {},
        }
    }
}

proof fn lemma_definition_ok(t: Tokens, at: int)
    requires
        stream_ok(t),
        0 <= at < t.len(),
    ensures
        spec_definition(t, at) matches Ok((d, next)) ==> at < next < t.len() && definition_ok(
            d,
            text_len(t),
        ),
{
    lemma_operation_ok(t, at);
    lemma_fragment_ok(t, at);
}

proof fn lemma_definitions_ok(t: Tokens, at: int, read: Seq<DefinitionView>)
    requires
        stream_ok(t),
        0 <= at < t.len(),
        forall|i: int| 0 <= i < read.len() ==> definition_ok(#[trigger] read[i], text_len(t)),
    ensures
        spec_definitions(t, at, read) matches Ok((all, next)) ==> document_ok(all, text_len(t))
            && at < next < t.len() && t[next].item is EndOfFile,
    decreases t.len() - at,
{
    lemma_definition_ok(t, at);
    match spec_definition(t, at) {
        Ok((d, next)) => {
            if !(t[next].item is EndOfFile) {
                lemma_definitions_ok(t, next, read.push(d));
            }
        },
        Err(_) => {},
    }
}

/// Every document that the grammar makes of the tokens of a text is in
/// order: it has at least one definition; every range in it ends no
/// earlier than it starts, and no later than the tokens reach; every
/// selection set in it holds at least one selection; and the rest of what
/// `document_ok` says.
pub proof fn lemma_document_is_in_order(t: Tokens)
    requires
        stream_ok(t),
        t.len() > 0,
    ensures
        spec_document(t) matches Ok(d) ==> document_ok(d, text_len(t)) && t.failure is None,
{
    lemma_definitions_ok(t, 0, Seq::empty());
}

/// A value that is read as a constant holds no variable, however deep.
pub proof fn lemma_constant_holds_no_variable(t: Tokens, at: int)
    requires
        stream_ok(t),
        0 <= at < t.len(),
    ensures
        spec_value(t, at, true) matches Ok((v, _)) ==> is_constant(v.item),
{
    lemma_value_ok(t, at, true);
}

/// Every value that the grammar makes of the tokens of a text is in order.
pub proof fn lemma_value_is_in_order(t: Tokens, at: int, constant: bool)
    requires
        stream_ok(t),
        0 <= at < t.len(),
    ensures
        spec_value(t, at, constant) matches Ok((v, next)) ==> covers(t, at, next, v.start, v.end)
            && value_ok(v, text_len(t)),
{
    lemma_value_ok(t, at, constant);
}

} // verus!
