//! What it means for tokens to spell a tree: the grammar, read from the
//! tree to the text.
//!
//! For each kind of node, one function says with how many tokens the node
//! is written, and another whether the tokens from some index on are those
//! tokens. An operation is written with its kind in front, whatever it
//! holds.

use vstd::prelude::*;
use crate::ast::{
    ArgumentsView, DefinitionView, DirectiveView, InputValueView, OperationType, SelectionView,
    TypeView, VariableDefinitionView, VariableDefinitionsView,
};
use crate::grammar::keyword;
use crate::lexer::Tokens;
use crate::position::Spanning;
use crate::token::{ScalarView, TokenView};

verus! {

/// The number of tokens that the value `v` is written with.
pub open spec fn value_len(v: InputValueView) -> nat
    decreases v,
{
    match v {
        InputValueView::Variable(_) => 2,
        InputValueView::List(items) => 2 + values_len(items),
        InputValueView::Object(fields) => 2 + fields_len(fields),
        _ => 1,
    }
}

/// The number of tokens that the values `items` are written with, one
/// after the other.
pub open spec fn values_len(items: Seq<Spanning<InputValueView>>) -> nat
    decreases items,
{
    if items.len() == 0 {
        0
    } else {
        value_len(items[0].item) + values_len(items.drop_first())
    }
}

/// The number of tokens that the fields of an object are written with:
/// for each, a name, a colon and a value.
pub open spec fn fields_len(fields: Seq<(Spanning<Seq<char>>, Spanning<InputValueView>)>) -> nat
    decreases fields,
{
    if fields.len() == 0 {
        0
    } else {
        2 + value_len(fields[0].1.item) + fields_len(fields.drop_first())
    }
}

/// Whether the tokens from `at` on spell the value `v`.
pub open spec fn value_written(t: Tokens, at: int, v: InputValueView) -> bool
    decreases v,
{
    match v {
        InputValueView::Null => t[at].item == keyword("null"),
        InputValueView::Boolean(b) => t[at].item == (if b {
            keyword("true")
        } else {
            keyword("false")
        }),
        InputValueView::Int(i) => t[at].item == TokenView::Scalar(ScalarView::Int(i)),
        InputValueView::Float(text) => t[at].item == TokenView::Scalar(ScalarView::Float(text)),
        InputValueView::String(text) => t[at].item == TokenView::Scalar(ScalarView::String(text)),
        InputValueView::Enum(name) => t[at].item == TokenView::Name(name),
        InputValueView::Variable(name) => t[at].item == TokenView::Dollar && t[at + 1].item
            == TokenView::Name(name),
        InputValueView::List(items) => {
            &&& t[at].item == TokenView::BracketOpen
            &&& values_written(t, at + 1, items)
            &&& t[at + 1 + values_len(items)].item == TokenView::BracketClose
        },
        InputValueView::Object(fields) => {
            &&& t[at].item == TokenView::CurlyOpen
            &&& fields_written(t, at + 1, fields)
            &&& t[at + 1 + fields_len(fields)].item == TokenView::CurlyClose
        },
    }
}

/// Whether the tokens from `at` on spell the values `items`, one after the
/// other.
pub open spec fn values_written(t: Tokens, at: int, items: Seq<Spanning<InputValueView>>) -> bool
    decreases items,
{
    items.len() == 0 || (value_written(t, at, items[0].item) && values_written(
        t,
        at + value_len(items[0].item),
        items.drop_first(),
    ))
}

/// Whether the tokens from `at` on spell the fields of an object: for
/// each, its name, a colon and its value.
pub open spec fn fields_written(
    t: Tokens,
    at: int,
    fields: Seq<(Spanning<Seq<char>>, Spanning<InputValueView>)>,
) -> bool
    decreases fields,
{
    fields.len() == 0 || {
        &&& t[at].item == TokenView::Name(fields[0].0.item)
        &&& t[at + 1].item == TokenView::Colon
        &&& value_written(t, at + 2, fields[0].1.item)
        &&& fields_written(t, at + 2 + value_len(fields[0].1.item), fields.drop_first())
    }
}

/// The number of tokens that the type `ty` is written with.
pub open spec fn type_len(ty: TypeView) -> nat
    decreases ty,
{
    match ty {
        TypeView::Named(_) => 1,
        TypeView::NonNullNamed(_) => 2,
        TypeView::List(inner) => 2 + type_len(*inner),
        TypeView::NonNullList(inner) => 3 + type_len(*inner),
    }
}

/// Whether the tokens from `at` on spell the type `ty`.
pub open spec fn type_written(t: Tokens, at: int, ty: TypeView) -> bool
    decreases ty,
{
    match ty {
        TypeView::Named(name) => t[at].item == TokenView::Name(name),
        TypeView::NonNullNamed(name) => t[at].item == TokenView::Name(name) && t[at + 1].item
            == TokenView::ExclamationMark,
        TypeView::List(inner) => {
            &&& t[at].item == TokenView::BracketOpen
            &&& type_written(t, at + 1, *inner)
            &&& t[at + 1 + type_len(*inner)].item == TokenView::BracketClose
        },
        TypeView::NonNullList(inner) => {
            &&& t[at].item == TokenView::BracketOpen
            &&& type_written(t, at + 1, *inner)
            &&& t[at + 1 + type_len(*inner)].item == TokenView::BracketClose
            &&& t[at + 2 + type_len(*inner)].item == TokenView::ExclamationMark
        },
    }
}

/// Whether the type `ty` allows null: whether it is written without an
/// exclamation mark at its end.
pub open spec fn is_nullable(ty: TypeView) -> bool {
    ty is Named || ty is List
}

/// The number of tokens that arguments are written with: none where
/// there are no arguments, and else the parentheses and, for each
/// argument, a name, a colon and a value.
pub open spec fn arguments_len(a: Option<Spanning<ArgumentsView>>) -> nat {
    match a {
        Some(a) => 2 + fields_len(a.item.items),
        None => 0,
    }
}

/// Whether the tokens from `at` on spell the arguments `a`.
pub open spec fn arguments_written(t: Tokens, at: int, a: Option<Spanning<ArgumentsView>>) -> bool {
    match a {
        Some(a) => {
            &&& t[at].item == TokenView::ParenOpen
            &&& fields_written(t, at + 1, a.item.items)
            &&& t[at + 1 + fields_len(a.item.items)].item == TokenView::ParenClose
        },
        None => true,
    }
}

/// The number of tokens that the directive `d` is written with.
pub open spec fn directive_len(d: DirectiveView) -> nat {
    2 + arguments_len(d.arguments)
}

/// Whether the tokens from `at` on spell the directive `d`.
pub open spec fn directive_written(t: Tokens, at: int, d: DirectiveView) -> bool {
    &&& t[at].item == TokenView::At
    &&& t[at + 1].item == TokenView::Name(d.name.item)
    &&& arguments_written(t, at + 2, d.arguments)
}

/// The number of tokens that the directives `d` are written with, one
/// after the other.
pub open spec fn run_len(d: Seq<Spanning<DirectiveView>>) -> nat
    decreases d.len(),
{
    if d.len() == 0 {
        0
    } else {
        directive_len(d[0].item) + run_len(d.drop_first())
    }
}

/// Whether the tokens from `at` on spell the directives `d`, one after the
/// other.
pub open spec fn run_written(t: Tokens, at: int, d: Seq<Spanning<DirectiveView>>) -> bool
    decreases d.len(),
{
    d.len() == 0 || (directive_written(t, at, d[0].item) && run_written(
        t,
        at + directive_len(d[0].item),
        d.drop_first(),
    ))
}

/// The number of tokens that the directives of a construct are written
/// with.
pub open spec fn directives_len(d: Option<Seq<Spanning<DirectiveView>>>) -> nat {
    match d {
        Some(d) => run_len(d),
        None => 0,
    }
}

/// Whether the tokens from `at` on spell the directives of a construct.
pub open spec fn directives_written(
    t: Tokens,
    at: int,
    d: Option<Seq<Spanning<DirectiveView>>>,
) -> bool {
    match d {
        Some(d) => run_written(t, at, d),
        None => true,
    }
}

/// The number of tokens that the definition of a variable is written
/// with.
pub open spec fn variable_len(d: VariableDefinitionView) -> nat {
    3 + type_len(d.var_type.item) + match d.default_value {
        Some(v) => 1 + value_len(v.item),
        None => 0,
    }
}

/// Whether the tokens from `at` on spell the definition of the variable
/// `name`.
pub open spec fn variable_written(
    t: Tokens,
    at: int,
    name: Seq<char>,
    d: VariableDefinitionView,
) -> bool {
    &&& t[at].item == TokenView::Dollar
    &&& t[at + 1].item == TokenView::Name(name)
    &&& t[at + 2].item == TokenView::Colon
    &&& type_written(t, at + 3, d.var_type.item)
    &&& match d.default_value {
        Some(v) => {
            &&& t[at + 3 + type_len(d.var_type.item)].item == TokenView::Equals
            &&& value_written(t, at + 4 + type_len(d.var_type.item), v.item)
        },
        None => true,
    }
}

/// The number of tokens that the variable definitions `d` are written
/// with, one after the other.
pub open spec fn variables_len(d: Seq<(Spanning<Seq<char>>, VariableDefinitionView)>) -> nat
    decreases d.len(),
{
    if d.len() == 0 {
        0
    } else {
        variable_len(d[0].1) + variables_len(d.drop_first())
    }
}

/// Whether the tokens from `at` on spell the variable definitions `d`,
/// one after the other.
pub open spec fn variables_written(
    t: Tokens,
    at: int,
    d: Seq<(Spanning<Seq<char>>, VariableDefinitionView)>,
) -> bool
    decreases d.len(),
{
    d.len() == 0 || (variable_written(t, at, d[0].0.item, d[0].1) && variables_written(
        t,
        at + variable_len(d[0].1),
        d.drop_first(),
    ))
}

/// The number of tokens that the variable definitions of an operation are
/// written with: none where there are none, and else the parentheses and
/// the definitions.
pub open spec fn variable_definitions_len(d: Option<Spanning<VariableDefinitionsView>>) -> nat {
    match d {
        Some(d) => 2 + variables_len(d.item.items),
        None => 0,
    }
}

/// Whether the tokens from `at` on spell the variable definitions of an
/// operation.
pub open spec fn variable_definitions_written(
    t: Tokens,
    at: int,
    d: Option<Spanning<VariableDefinitionsView>>,
) -> bool {
    match d {
        Some(d) => {
            &&& t[at].item == TokenView::ParenOpen
            &&& variables_written(t, at + 1, d.item.items)
            &&& t[at + 1 + variables_len(d.item.items)].item == TokenView::ParenClose
        },
        None => true,
    }
}

/// The number of tokens that the selection `s` is written with.
pub open spec fn selection_len(s: SelectionView) -> nat
    decreases s,
{
    match s {
        SelectionView::Field(f) => (if f.item.alias is Some {
            2nat
        } else {
            0nat
        }) + 1 + arguments_len(f.item.arguments) + directives_len(f.item.directives)
            + match f.item.selection_set {
            Some(set) => 2 + selections_len(set),
            None => 0,
        },
        SelectionView::FragmentSpread(f) => 2 + directives_len(f.item.directives),
        SelectionView::InlineFragment(f) => 1 + (if f.item.type_condition is Some {
            2nat
        } else {
            0nat
        }) + directives_len(f.item.directives) + 2 + selections_len(f.item.selection_set),
    }
}

/// The number of tokens that the selections `set` are written with, one
/// after the other.
pub open spec fn selections_len(set: Seq<SelectionView>) -> nat
    decreases set,
{
    if set.len() == 0 {
        0
    } else {
        selection_len(set[0]) + selections_len(set.drop_first())
    }
}

/// Whether the tokens from `at` on spell the selection set `set`: a
/// brace, the selections, and a brace.
pub open spec fn selection_set_written(t: Tokens, at: int, set: Seq<SelectionView>) -> bool
    decreases set, 1int,
{
    &&& t[at].item == TokenView::CurlyOpen
    &&& selections_written(t, at + 1, set)
    &&& t[at + 1 + selections_len(set)].item == TokenView::CurlyClose
}

/// Whether the tokens from `at` on spell the selection `s`.
///
/// A field is written as an alias and a colon, if it has an alias, its
/// name, and its arguments, directives and selection set, as far as it has
/// any. A fragment spread is an ellipsis, a name and directives. An inline
/// fragment is an ellipsis, the name `on` and a type if it has a type
/// condition, directives and a selection set.
pub open spec fn selection_written(t: Tokens, at: int, s: SelectionView) -> bool
    decreases s, 0int,
{
    match s {
        SelectionView::Field(f) => {
            let name_at = if f.item.alias is Some {
                at + 2
            } else {
                at
            };
            let directives_at = name_at + 1 + arguments_len(f.item.arguments);
            let set_at = directives_at + directives_len(f.item.directives);
            &&& f.item.alias matches Some(alias) ==> t[at].item == TokenView::Name(alias.item)
                && t[at + 1].item == TokenView::Colon
            &&& t[name_at].item == TokenView::Name(f.item.name.item)
            &&& arguments_written(t, name_at + 1, f.item.arguments)
            &&& directives_written(t, directives_at, f.item.directives)
            &&& f.item.selection_set matches Some(set) ==> selection_set_written(t, set_at, set)
        },
        SelectionView::FragmentSpread(f) => {
            &&& t[at].item == TokenView::Ellipsis
            &&& t[at + 1].item == TokenView::Name(f.item.name.item)
            &&& directives_written(t, at + 2, f.item.directives)
        },
        SelectionView::InlineFragment(f) => {
            let directives_at = if f.item.type_condition is Some {
                at + 3
            } else {
                at + 1
            };
            &&& t[at].item == TokenView::Ellipsis
            &&& f.item.type_condition matches Some(name) ==> t[at + 1].item == keyword("on")
                && t[at + 2].item == TokenView::Name(name.item)
            &&& directives_written(t, directives_at, f.item.directives)
            &&& selection_set_written(
                t,
                directives_at + directives_len(f.item.directives),
                f.item.selection_set,
            )
        },
    }
}

/// Whether the tokens from `at` on spell the selections `set`, one after
/// the other.
pub open spec fn selections_written(t: Tokens, at: int, set: Seq<SelectionView>) -> bool
    decreases set, 0int,
{
    set.len() == 0 || (selection_written(t, at, set[0]) && selections_written(
        t,
        at + selection_len(set[0]),
        set.drop_first(),
    ))
}

/// The name that an operation of the given kind is written with.
pub open spec fn operation_keyword(kind: OperationType) -> TokenView {
    match kind {
        OperationType::Query => keyword("query"),
        OperationType::Mutation => keyword("mutation"),
    }
}

/// The number of tokens that the definition `d` is written with.
pub open spec fn definition_len(d: DefinitionView) -> nat {
    match d {
        DefinitionView::Operation(o) => 1 + (if o.item.name is Some {
            1nat
        } else {
            0nat
        }) + variable_definitions_len(o.item.variable_definitions) + directives_len(
            o.item.directives,
        ) + 2 + selections_len(o.item.selection_set),
        DefinitionView::Fragment(f) => 4 + directives_len(f.item.directives) + 2 + selections_len(
            f.item.selection_set,
        ),
    }
}

/// Whether the tokens from `at` on spell the definition `d`.
///
/// An operation is written as its kind, its name if it has one, and its
/// variable definitions, directives and selection set. A fragment is
/// written as the name `fragment`, its name, the name `on`, its type,
/// and its directives and selection set.
pub open spec fn definition_written(t: Tokens, at: int, d: DefinitionView) -> bool {
    match d {
        DefinitionView::Operation(o) => {
            let variables_at = if o.item.name is Some {
                at + 2
            } else {
                at + 1
            };
            let directives_at = variables_at + variable_definitions_len(
                o.item.variable_definitions,
            );
            &&& t[at].item == operation_keyword(o.item.operation_type)
            &&& o.item.name matches Some(name) ==> t[at + 1].item == TokenView::Name(name.item)
            &&& variable_definitions_written(t, variables_at, o.item.variable_definitions)
            &&& directives_written(t, directives_at, o.item.directives)
            &&& selection_set_written(
                t,
                directives_at + directives_len(o.item.directives),
                o.item.selection_set,
            )
        },
        DefinitionView::Fragment(f) => {
            &&& t[at].item == keyword("fragment")
            &&& t[at + 1].item == TokenView::Name(f.item.name.item)
            &&& t[at + 2].item == keyword("on")
            &&& t[at + 3].item == TokenView::Name(f.item.type_condition.item)
            &&& directives_written(t, at + 4, f.item.directives)
            &&& selection_set_written(
                t,
                at + 4 + directives_len(f.item.directives),
                f.item.selection_set,
            )
        },
    }
}

/// The number of tokens that the definitions `d` are written with, one
/// after the other.
pub open spec fn definitions_len(d: Seq<DefinitionView>) -> nat
    decreases d.len(),
{
    if d.len() == 0 {
        0
    } else {
        definition_len(d[0]) + definitions_len(d.drop_first())
    }
}

/// Whether the tokens from `at` on spell the definitions `d`, one after
/// the other.
pub open spec fn definitions_written(t: Tokens, at: int, d: Seq<DefinitionView>) -> bool
    decreases d.len(),
{
    d.len() == 0 || (definition_written(t, at, d[0]) && definitions_written(
        t,
        at + definition_len(d[0]),
        d.drop_first(),
    ))
}

/// Whether the tokens `t` spell the document `d`, and nothing else: the
/// definitions, one after the other, and the token `EndOfFile`.
pub open spec fn document_written(t: Tokens, d: Seq<DefinitionView>) -> bool {
    &&& t.failure is None
    &&& t.len() == definitions_len(d) + 1
    &&& definitions_written(t, 0, d)
    &&& t[t.len() - 1].item is EndOfFile
}

} // verus!
