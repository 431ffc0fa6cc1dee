//! What holds of every tree that the parser builds: its ranges of text are
//! ordered and lie within the source, and no list in it is empty that the
//! grammar wants filled.

use vstd::prelude::*;
use crate::ast::{
    ArgumentsView, DefinitionView, DirectiveView, InputValueView, SelectionView,
    VariableDefinitionsView,
};
use crate::parser::span_ok;
use crate::position::Spanning;

verus! {

/// Whether the range of `s` is ordered and lies within `limit` bytes.
pub open spec fn spanned_ok<T>(s: Spanning<T>, limit: nat) -> bool {
    span_ok(s.start, s.end, limit)
}

/// Whether `name` is one of the names that are values of their own:
/// `true`, `false` and `null`.
pub open spec fn is_value_keyword(name: Seq<char>) -> bool {
    name == "true"@ || name == "false"@ || name == "null"@
}

/// Whether every range in the value `v` is ordered and lies within `limit`
/// bytes, and no enum value in it has the name of a boolean or of null.
pub open spec fn value_ok(v: Spanning<InputValueView>, limit: nat) -> bool
    decreases v,
{
    &&& span_ok(v.start, v.end, limit)
    &&& match v.item {
        InputValueView::Enum(name) => !is_value_keyword(name),
        InputValueView::List(items) => forall|i: int|
            0 <= i < items.len() ==> value_ok(#[trigger] items[i], limit),
        InputValueView::Object(fields) => forall|i: int|
            0 <= i < fields.len() ==> spanned_ok((#[trigger] fields[i]).0, limit) && value_ok(
                fields[i].1,
                limit,
            ),
        _ => true,
    }
}

/// Whether no variable stands anywhere in the value `v`.
pub open spec fn is_constant(v: InputValueView) -> bool
    decreases v,
{
    match v {
        InputValueView::Variable(_) => false,
        InputValueView::List(items) => forall|i: int|
            0 <= i < items.len() ==> is_constant((#[trigger] items[i]).item),
        InputValueView::Object(fields) => forall|i: int|
            0 <= i < fields.len() ==> is_constant((#[trigger] fields[i]).1.item),
        _ => true,
    }
}

/// Arguments, where they are present, are at least one, and their ranges
/// are in order.
pub open spec fn arguments_ok(a: Option<Spanning<ArgumentsView>>, limit: nat) -> bool {
    a matches Some(a) ==> {
        &&& span_ok(a.start, a.end, limit)
        &&& a.item.items.len() > 0
        &&& forall|i: int|
            0 <= i < a.item.items.len() ==> spanned_ok((#[trigger] a.item.items[i]).0, limit)
                && value_ok(a.item.items[i].1, limit)
    }
}

/// The ranges of a directive and of its parts are in order.
pub open spec fn directive_ok(d: Spanning<DirectiveView>, limit: nat) -> bool {
    &&& span_ok(d.start, d.end, limit)
    &&& spanned_ok(d.item.name, limit)
    &&& arguments_ok(d.item.arguments, limit)
}

/// Directives, where they are present, are at least one, and their ranges
/// are in order.
pub open spec fn directives_ok(d: Option<Seq<Spanning<DirectiveView>>>, limit: nat) -> bool {
    d matches Some(d) ==> {
        &&& d.len() > 0
        &&& forall|i: int| 0 <= i < d.len() ==> directive_ok(#[trigger] d[i], limit)
    }
}

/// Variable definitions, where they are present, are at least one; their
/// ranges are in order, and no variable stands in a default value.
pub open spec fn variable_definitions_ok(
    v: Option<Spanning<VariableDefinitionsView>>,
    limit: nat,
) -> bool {
    v matches Some(v) ==> {
        &&& span_ok(v.start, v.end, limit)
        &&& v.item.items.len() > 0
        &&& forall|i: int|
            0 <= i < v.item.items.len() ==> {
                &&& spanned_ok((#[trigger] v.item.items[i]).0, limit)
                &&& spanned_ok(v.item.items[i].1.var_type, limit)
                &&& v.item.items[i].1.default_value matches Some(value) ==> value_ok(value, limit)
                    && is_constant(value.item)
            }
    }
}

/// The ranges of a selection and of all its parts are in order, every
/// selection set within it holds at least one selection, and no fragment
/// that is spread in it has the name `on`.
pub open spec fn selection_ok(s: SelectionView, limit: nat) -> bool
    decreases s,
{
    match s {
        SelectionView::Field(f) => {
            &&& span_ok(f.start, f.end, limit)
            &&& f.item.alias matches Some(alias) ==> spanned_ok(alias, limit)
            &&& spanned_ok(f.item.name, limit)
            &&& arguments_ok(f.item.arguments, limit)
            &&& directives_ok(f.item.directives, limit)
            &&& f.item.selection_set matches Some(set) ==> set.len() > 0 && forall|i: int|
                0 <= i < set.len() ==> selection_ok(#[trigger] set[i], limit)
        },
        SelectionView::FragmentSpread(f) => {
            &&& span_ok(f.start, f.end, limit)
            &&& spanned_ok(f.item.name, limit)
            &&& f.item.name.item != "on"@
            &&& directives_ok(f.item.directives, limit)
        },
        SelectionView::InlineFragment(f) => {
            &&& span_ok(f.start, f.end, limit)
            &&& f.item.type_condition matches Some(name) ==> spanned_ok(name, limit)
            &&& directives_ok(f.item.directives, limit)
            &&& f.item.selection_set.len() > 0
            &&& forall|i: int|
                0 <= i < f.item.selection_set.len() ==> selection_ok(
                    #[trigger] f.item.selection_set[i],
                    limit,
                )
        },
    }
}

/// A selection set holds at least one selection, and each of them is in
/// order.
pub open spec fn selections_ok(set: Seq<SelectionView>, limit: nat) -> bool {
    &&& set.len() > 0
    &&& forall|i: int| 0 <= i < set.len() ==> selection_ok(#[trigger] set[i], limit)
}

/// A definition and all its parts are in order, and it is no fragment with
/// the name `on`.
pub open spec fn definition_ok(d: DefinitionView, limit: nat) -> bool {
    match d {
        DefinitionView::Operation(o) => {
            &&& span_ok(o.start, o.end, limit)
            &&& o.item.name matches Some(name) ==> spanned_ok(name, limit)
            &&& variable_definitions_ok(o.item.variable_definitions, limit)
            &&& directives_ok(o.item.directives, limit)
            &&& selections_ok(o.item.selection_set, limit)
        },
        DefinitionView::Fragment(f) => {
            &&& span_ok(f.start, f.end, limit)
            &&& spanned_ok(f.item.name, limit)
            &&& f.item.name.item != "on"@
            &&& spanned_ok(f.item.type_condition, limit)
            &&& directives_ok(f.item.directives, limit)
            &&& selections_ok(f.item.selection_set, limit)
        },
    }
}

/// What holds of every document that was parsed from a text of `limit`
/// bytes: it has at least one definition; every range in it ends no
/// earlier than it starts, and within the text; every selection set holds
/// at least one selection; arguments, directives and variable definitions
/// are absent or at least one; no variable stands in a default value; no
/// enum value has the name of a boolean or of null; and no fragment has the
/// name `on`.
pub open spec fn document_ok(d: Seq<DefinitionView>, limit: nat) -> bool {
    &&& d.len() > 0
    &&& forall|i: int| 0 <= i < d.len() ==> definition_ok(#[trigger] d[i], limit)
}

} // verus!
