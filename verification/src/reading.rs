//! Reading back what was written: tokens that spell a tree are parsed to
//! that tree.
//!
//! Together with what `shape` says of every tree that the parser returns,
//! this is the round trip: a document that was parsed, written down again
//! in whatever layout, is parsed to the same document but for the places
//! in it.

use vstd::prelude::*;
use crate::ast::{
    ArgumentsView, DefinitionView, DirectiveView, InputValueView, SelectionView, TypeView,
    VariableDefinitionView, VariableDefinitionsView,
};
use crate::bare::{
    bare_directives, bare_items, lemma_bare_list, lemma_bare_object, lemma_bare_selections, Bare,
};
use crate::grammar::{
    spec_argument, spec_argument_items, spec_arguments, spec_definition, spec_definitions,
    spec_directive, spec_directive_run, spec_directives, spec_document, spec_field,
    spec_fragment, spec_inline_fragment, spec_operation, spec_selection, spec_selection_set,
    spec_selection_set_after, spec_selections, spec_type, spec_variable_definition,
    spec_variable_definition_items, spec_variable_definitions, unspanned, ArgumentView,
    DirectiveViews,
};
use crate::laws::bare_result;
use crate::parser::ParseErrorView;
use crate::lexer::Tokens;
use crate::position::Spanning;
use crate::shape::{
    arguments_ok, definition_ok, directive_ok, directives_ok, document_ok, is_constant,
    selection_ok, selections_ok, spanned_ok, value_ok, variable_definitions_ok,
};
use crate::token::TokenView;
use crate::value::{
    spec_list_items, spec_object_field, spec_object_fields, spec_value, FieldViews,
};
use crate::written::{
    arguments_len, arguments_written, definition_len, definition_written, definitions_len,
    definitions_written, directive_len, directive_written, directives_len, directives_written,
    document_written, fields_len, fields_written, is_nullable, run_len, run_written,
    selection_len, selection_set_written, selection_written, selections_len,
    selections_written, type_len, type_written, value_len, value_written, values_len,
    values_written, variable_definitions_len, variable_definitions_written, variable_len,
    variable_written, variables_len, variables_written,
};

verus! {

/// Whether a text was read to its end: its last token, and no other, is
/// `EndOfFile`.
pub open spec fn complete(t: Tokens) -> bool {
    &&& t.failure is None
    &&& t.len() > 0
    &&& t[t.len() - 1].item is EndOfFile
}

/// Whether a rule reads `v`, but for places, and stops at `next`.
pub open spec fn reads<T: Bare>(r: crate::parser::Parsed<T>, v: T, next: int) -> bool {
    match r {
        Ok((w, n)) => n == next && w.bare() == v.bare(),
        Err(_) => false,
    }
}

#[verifier::rlimit(50)]
proof fn lemma_value_read_back(
    t: Tokens,
    at: int,
    v: Spanning<InputValueView>,
    constant: bool,
    limit: nat,
)
    requires
        complete(t),
        0 <= at,
        at + value_len(v.item) < t.len(),
        value_written(t, at, v.item),
        value_ok(v, limit),
        constant ==> is_constant(v.item),
    ensures
        reads(spec_value(t, at, constant), v, at + value_len(v.item)),
    decreases v,
{
    match v.item {
        InputValueView::List(items) => {
            lemma_values_read_back(t, at + 1, items, constant, limit, Seq::empty());
            assert(Seq::<Spanning<InputValueView>>::empty() + items =~= items);
            match spec_list_items(t, at + 1, constant, Seq::empty()) {
                Ok(((all, _), _)) => {
                    lemma_bare_list(all);
                    lemma_bare_list(items);
                },
                Err(_) => {},
            }
        },
        InputValueView::Object(fields) => {
            lemma_fields_read_back(t, at + 1, fields, constant, limit, Seq::empty());
            assert(Seq::<(Spanning<Seq<char>>, Spanning<InputValueView>)>::empty() + fields
                =~= fields);
            match spec_object_fields(t, at + 1, constant, Seq::empty()) {
                Ok(((all, _), _)) => {
                    lemma_bare_object(all);
                    lemma_bare_object(fields);
                },
                Err(_) => {},
            }
        },
        _ => {
            lemma_value_keywords_differ();
        },
    }
}

/// The names `true`, `false` and `null` are three different names.
pub proof fn lemma_value_keywords_differ()
    ensures
        "true"@ != "false"@,
        "true"@ != "null"@,
        "false"@ != "null"@,
{
    reveal_strlit("true");
    reveal_strlit("false");
    reveal_strlit("null");
    assert("true"@[0] != "null"@[0]);
}

proof fn lemma_values_read_back(
    t: Tokens,
    at: int,
    items: Seq<Spanning<InputValueView>>,
    constant: bool,
    limit: nat,
    read: Seq<Spanning<InputValueView>>,
)
    requires
        complete(t),
        0 <= at,
        at + values_len(items) + 1 < t.len(),
        values_written(t, at, items),
        t[at + values_len(items)].item == TokenView::BracketClose,
        forall|i: int| 0 <= i < items.len() ==> value_ok(#[trigger] items[i], limit),
        constant ==> forall|i: int| 0 <= i < items.len() ==> is_constant((#[trigger] items[i]).item),
    ensures
        reads(
            spec_list_items(t, at, constant, read),
            (read + items, crate::bare::nowhere()),
            at + values_len(items) + 1,
        ),
    decreases items,
{
    if items.len() == 0 {
        assert(read + items =~= read);
    } else {
        let first = items[0];
        let rest = items.drop_first();
        lemma_value_read_back(t, at, first, constant, limit);
        match spec_value(t, at, constant) {
            Ok((w, next)) => {
                assert forall|i: int| 0 <= i < rest.len() implies value_ok(
                    #[trigger] rest[i],
                    limit,
                ) by {
                    assert(rest[i] == items[i + 1]);
                }
                if constant {
                    assert forall|i: int| 0 <= i < rest.len() implies is_constant(
                        (#[trigger] rest[i]).item,
                    ) by {
                        assert(rest[i] == items[i + 1]);
                    }
                }
                lemma_values_read_back(t, next, rest, constant, limit, read.push(w));
                assert(bare_items(read.push(w) + rest) =~= bare_items(read + items)) by {
                    assert forall|i: int| 0 <= i < (read + items).len() implies (read.push(w)
                        + rest)[i].bare() == (read + items)[i].bare() by {
                        if i < read.len() {
                        } else if i == read.len() {
                            assert((read + items)[i] == first);
                        } else {
                            assert((read + items)[i] == items[i - read.len()]);
                            assert((read.push(w) + rest)[i] == rest[i - read.len() - 1]);
                        }
                    }
                }
            },
            Err(_) => {},
        }
    }
}

proof fn lemma_fields_read_back(
    t: Tokens,
    at: int,
    fields: FieldViews,
    constant: bool,
    limit: nat,
    read: FieldViews,
)
    requires
        complete(t),
        0 <= at,
        at + fields_len(fields) + 1 < t.len(),
        fields_written(t, at, fields),
        t[at + fields_len(fields)].item == TokenView::CurlyClose,
        forall|i: int|
            0 <= i < fields.len() ==> spanned_ok((#[trigger] fields[i]).0, limit) && value_ok(
                fields[i].1,
                limit,
            ),
        constant ==> forall|i: int|
            0 <= i < fields.len() ==> is_constant((#[trigger] fields[i]).1.item),
    ensures
        reads(
            spec_object_fields(t, at, constant, read),
            (read + fields, crate::bare::nowhere()),
            at + fields_len(fields) + 1,
        ),
    decreases fields,
{
    if fields.len() == 0 {
        assert(read + fields =~= read);
    } else {
        let first = fields[0];
        let rest = fields.drop_first();
        lemma_value_read_back(t, at + 2, first.1, constant, limit);
        match spec_object_field(t, at, constant) {
            Ok((w, next)) => {
                assert forall|i: int| 0 <= i < rest.len() implies spanned_ok(
                    (#[trigger] rest[i]).0,
                    limit,
                ) && value_ok(rest[i].1, limit) by {
                    assert(rest[i] == fields[i + 1]);
                }
                if constant {
                    assert forall|i: int| 0 <= i < rest.len() implies is_constant(
                        (#[trigger] rest[i]).1.item,
                    ) by {
                        assert(rest[i] == fields[i + 1]);
                    }
                }
                lemma_fields_read_back(t, next, rest, constant, limit, read.push(w));
                assert(bare_items(read.push(w) + rest) =~= bare_items(read + fields)) by {
                    assert forall|i: int| 0 <= i < (read + fields).len() implies (read.push(w)
                        + rest)[i].bare() == (read + fields)[i].bare() by {
                        if i < read.len() {
                        } else if i == read.len() {
                            assert((read + fields)[i] == first);
                        } else {
                            assert((read + fields)[i] == fields[i - read.len()]);
                            assert((read.push(w) + rest)[i] == rest[i - read.len() - 1]);
                        }
                    }
                }
            },
            Err(_) => {},
        }
    }
}

proof fn lemma_type_read_back(t: Tokens, at: int, ty: TypeView)
    requires
        complete(t),
        0 <= at,
        at + type_len(ty) < t.len(),
        type_written(t, at, ty),
        is_nullable(ty) ==> !(t[at + type_len(ty)].item is ExclamationMark),
    ensures
        spec_type(t, at) matches Ok((w, next)) && next == at + type_len(ty) && w.item == ty,
    decreases ty,
{
    match ty {
        TypeView::List(inner) => {
            lemma_type_read_back(t, at + 1, *inner);
        },
        TypeView::NonNullList(inner) => {
            lemma_type_read_back(t, at + 1, *inner);
        },
        _ => {},
    }
}

/// The items that were read, but for places, are those read before and
/// then those that were written.
proof fn lemma_read_one_more<T: Bare>(read: Seq<T>, w: T, items: Seq<T>)
    requires
        items.len() > 0,
        w.bare() == items[0].bare(),
    ensures
        bare_items(read.push(w) + items.drop_first()) == bare_items(read + items),
{
    let rest = items.drop_first();
    assert(bare_items(read.push(w) + rest) =~= bare_items(read + items)) by {
        assert forall|i: int| 0 <= i < (read + items).len() implies (read.push(w) + rest)[i].bare()
            == (read + items)[i].bare() by {
            if i < read.len() {
            } else if i == read.len() {
                assert((read + items)[i] == items[0]);
            } else {
                assert((read + items)[i] == items[i - read.len()]);
                assert((read.push(w) + rest)[i] == rest[i - read.len() - 1]);
            }
        }
    }
}

proof fn lemma_argument_items_read_back(
    t: Tokens,
    at: int,
    items: Seq<ArgumentView>,
    limit: nat,
    read: Seq<ArgumentView>,
)
    requires
        complete(t),
        0 <= at,
        at + fields_len(items) + 1 < t.len(),
        items.len() > 0,
        fields_written(t, at, items),
        t[at + fields_len(items)].item == TokenView::ParenClose,
        forall|i: int|
            0 <= i < items.len() ==> spanned_ok((#[trigger] items[i]).0, limit) && value_ok(
                items[i].1,
                limit,
            ),
    ensures
        reads(
            spec_argument_items(t, at, read),
            (read + items, crate::bare::nowhere()),
            at + fields_len(items) + 1,
        ),
    decreases items.len(),
{
    let first = items[0];
    let rest = items.drop_first();
    lemma_value_read_back(t, at + 2, first.1, false, limit);
    match spec_argument(t, at) {
        Ok((w, next)) => {
            lemma_read_one_more(read, w, items);
            if rest.len() == 0 {
                assert(read.push(w) + rest =~= read.push(w));
            } else {
                assert forall|i: int| 0 <= i < rest.len() implies spanned_ok(
                    (#[trigger] rest[i]).0,
                    limit,
                ) && value_ok(rest[i].1, limit) by {
                    assert(rest[i] == items[i + 1]);
                }
                lemma_argument_items_read_back(t, next, rest, limit, read.push(w));
            }
        },
        Err(_) => {},
    }
}

proof fn lemma_arguments_read_back(
    t: Tokens,
    at: int,
    a: Option<Spanning<ArgumentsView>>,
    limit: nat,
)
    requires
        complete(t),
        0 <= at,
        at + arguments_len(a) < t.len(),
        arguments_written(t, at, a),
        arguments_ok(a, limit),
        a is None ==> t[at].item != TokenView::ParenOpen,
    ensures
        reads(spec_arguments(t, at), a, at + arguments_len(a)),
{
    match a {
        Some(a) => {
            lemma_argument_items_read_back(t, at + 1, a.item.items, limit, Seq::empty());
            assert(Seq::<ArgumentView>::empty() + a.item.items =~= a.item.items);
        },
        None => {},
    }
}

proof fn lemma_directive_read_back(t: Tokens, at: int, d: Spanning<DirectiveView>, limit: nat)
    requires
        complete(t),
        0 <= at,
        at + directive_len(d.item) < t.len(),
        directive_written(t, at, d.item),
        directive_ok(d, limit),
        d.item.arguments is None ==> t[at + 2].item != TokenView::ParenOpen,
    ensures
        reads(spec_directive(t, at), d, at + directive_len(d.item)),
{
    lemma_arguments_read_back(t, at + 2, d.item.arguments, limit);
}

#[verifier::rlimit(50)]
proof fn lemma_run_read_back(
    t: Tokens,
    at: int,
    d: DirectiveViews,
    limit: nat,
    read: DirectiveViews,
)
    requires
        complete(t),
        0 <= at,
        at + run_len(d) < t.len(),
        d.len() > 0,
        run_written(t, at, d),
        forall|i: int| 0 <= i < d.len() ==> directive_ok(#[trigger] d[i], limit),
        !(t[at + run_len(d)].item is At),
        t[at + run_len(d)].item != TokenView::ParenOpen,
    ensures
        reads(spec_directive_run(t, at, read), read + d, at + run_len(d)),
    decreases d.len(),
{
    let first = d[0];
    let rest = d.drop_first();
    reveal_with_fuel(run_written, 2);
    reveal_with_fuel(run_len, 2);
    lemma_directive_read_back(t, at, first, limit);
    match spec_directive(t, at) {
        Ok((w, next)) => {
            lemma_read_one_more(read, w, d);
            if rest.len() == 0 {
                assert(read.push(w) + rest =~= read.push(w));
            } else {
                assert forall|i: int| 0 <= i < rest.len() implies directive_ok(
                    #[trigger] rest[i],
                    limit,
                ) by {
                    assert(rest[i] == d[i + 1]);
                }
                lemma_run_read_back(t, next, rest, limit, read.push(w));
            }
        },
        Err(_) => {},
    }
}

proof fn lemma_directives_read_back(
    t: Tokens,
    at: int,
    d: Option<DirectiveViews>,
    limit: nat,
)
    requires
        complete(t),
        0 <= at,
        at + directives_len(d) < t.len(),
        directives_written(t, at, d),
        directives_ok(d, limit),
        !(t[at + directives_len(d)].item is At),
        t[at + directives_len(d)].item != TokenView::ParenOpen,
    ensures
        spec_directives(t, at) matches Ok((r, next)) && next == at + directives_len(d)
            && bare_directives(unspanned(r)) == bare_directives(d) && (r is Some <==> d is Some),
{
    match d {
        Some(d) => {
            lemma_run_read_back(t, at, d, limit, Seq::empty());
            assert(Seq::<Spanning<DirectiveView>>::empty() + d =~= d);
        },
        None => {},
    }
}

#[verifier::rlimit(50)]
proof fn lemma_variable_read_back(
    t: Tokens,
    at: int,
    name: Spanning<Seq<char>>,
    d: VariableDefinitionView,
    limit: nat,
)
    requires
        complete(t),
        0 <= at,
        at + variable_len(d) < t.len(),
        variable_written(t, at, name.item, d),
        d.default_value matches Some(v) ==> value_ok(v, limit) && is_constant(v.item),
        t[at + variable_len(d)].item is Dollar || t[at + variable_len(d)].item is ParenClose,
    ensures
        reads(spec_variable_definition(t, at), (name, d), at + variable_len(d)),
{
    lemma_type_read_back(t, at + 3, d.var_type.item);
    match d.default_value {
        Some(v) => {
            lemma_value_read_back(t, at + 4 + type_len(d.var_type.item), v, true, limit);
        },
        None => {},
    }
}

proof fn lemma_variables_read_back(
    t: Tokens,
    at: int,
    d: Seq<(Spanning<Seq<char>>, VariableDefinitionView)>,
    limit: nat,
    read: Seq<(Spanning<Seq<char>>, VariableDefinitionView)>,
)
    requires
        complete(t),
        0 <= at,
        at + variables_len(d) + 1 < t.len(),
        d.len() > 0,
        variables_written(t, at, d),
        t[at + variables_len(d)].item == TokenView::ParenClose,
        forall|i: int|
            0 <= i < d.len() ==> ((#[trigger] d[i]).1.default_value matches Some(v) ==> value_ok(
                v,
                limit,
            ) && is_constant(v.item)),
    ensures
        reads(
            spec_variable_definition_items(t, at, read),
            (read + d, crate::bare::nowhere()),
            at + variables_len(d) + 1,
        ),
    decreases d.len(),
{
    let first = d[0];
    let rest = d.drop_first();
    reveal_with_fuel(variables_written, 2);
    reveal_with_fuel(variables_len, 2);
    lemma_variable_read_back(t, at, first.0, first.1, limit);
    match spec_variable_definition(t, at) {
        Ok((w, next)) => {
            lemma_read_one_more(read, w, d);
            if rest.len() == 0 {
                assert(read.push(w) + rest =~= read.push(w));
            } else {
                assert forall|i: int| 0 <= i < rest.len() implies ((
                #[trigger] rest[i]).1.default_value matches Some(v) ==> value_ok(v, limit)
                    && is_constant(v.item)) by {
                    assert(rest[i] == d[i + 1]);
                }
                lemma_variables_read_back(t, next, rest, limit, read.push(w));
            }
        },
        Err(_) => {},
    }
}

proof fn lemma_variable_definitions_read_back(
    t: Tokens,
    at: int,
    d: Option<Spanning<VariableDefinitionsView>>,
    limit: nat,
)
    requires
        complete(t),
        0 <= at,
        at + variable_definitions_len(d) < t.len(),
        variable_definitions_written(t, at, d),
        variable_definitions_ok(d, limit),
        d is None ==> t[at].item != TokenView::ParenOpen,
    ensures
        reads(spec_variable_definitions(t, at), d, at + variable_definitions_len(d)),
{
    match d {
        Some(d) => {
            lemma_variables_read_back(t, at + 1, d.item.items, limit, Seq::empty());
            assert(Seq::<(Spanning<Seq<char>>, VariableDefinitionView)>::empty() + d.item.items
                =~= d.item.items);
        },
        None => {},
    }
}

/// Whether a selection can end before the token `token`: before a name
/// or an ellipsis, which start the next selection, or before the brace
/// that closes the selection set.
pub open spec fn ends_selection(token: TokenView) -> bool {
    token is Name || token is Ellipsis || token is CurlyClose
}

/// The names `query`, `mutation` and `fragment` are three different
/// names.
pub proof fn lemma_definition_keywords_differ()
    ensures
        "query"@ != "mutation"@,
        "query"@ != "fragment"@,
        "mutation"@ != "fragment"@,
{
    reveal_strlit("query");
    reveal_strlit("mutation");
    reveal_strlit("fragment");
    assert("mutation"@[0] != "fragment"@[0]);
}

proof fn lemma_selection_set_read_back(
    t: Tokens,
    from: int,
    at: int,
    set: Seq<SelectionView>,
    limit: nat,
)
    requires
        complete(t),
        0 <= from <= at,
        at + 2 + selections_len(set) < t.len(),
        selection_set_written(t, at, set),
        selections_ok(set, limit),
    ensures
        reads(
            spec_selection_set(t, at),
            Spanning { start: crate::bare::nowhere(), end: crate::bare::nowhere(), item: set },
            at + 2 + selections_len(set),
        ),
        from < at ==> spec_selection_set_after(t, from, at) == spec_selection_set(t, at),
    decreases set, 1int,
{
    lemma_selections_read_back(t, at + 1, set, limit, Seq::empty());
    assert(Seq::<SelectionView>::empty() + set =~= set);
}

#[verifier::rlimit(50)]
proof fn lemma_selections_read_back(
    t: Tokens,
    at: int,
    set: Seq<SelectionView>,
    limit: nat,
    read: Seq<SelectionView>,
)
    requires
        complete(t),
        0 <= at,
        at + selections_len(set) + 1 < t.len(),
        set.len() > 0,
        selections_written(t, at, set),
        t[at + selections_len(set)].item == TokenView::CurlyClose,
        forall|i: int| 0 <= i < set.len() ==> selection_ok(#[trigger] set[i], limit),
    ensures
        reads(
            spec_selections(t, at, read),
            (read + set, crate::bare::nowhere()),
            at + selections_len(set) + 1,
        ),
    decreases set, 0int,
{
    let first = set[0];
    let rest = set.drop_first();
    reveal_with_fuel(selections_written, 2);
    reveal_with_fuel(selections_len, 2);
    if rest.len() > 0 {
        lemma_selection_starts(t, at + selection_len(first), rest[0]);
    }
    lemma_selection_read_back(t, at, first, limit);
    match spec_selection(t, at) {
        Ok((w, next)) => {
            lemma_read_one_more(read, w, set);
            if rest.len() == 0 {
                assert(read.push(w) + rest =~= read.push(w));
            } else {
                assert forall|i: int| 0 <= i < rest.len() implies selection_ok(
                    #[trigger] rest[i],
                    limit,
                ) by {
                    assert(rest[i] == set[i + 1]);
                }
                lemma_selections_read_back(t, next, rest, limit, read.push(w));
            }
        },
        Err(_) => {},
    }
}

/// A selection is written with a name or an ellipsis in front.
proof fn lemma_selection_starts(t: Tokens, at: int, s: SelectionView)
    requires
        selection_written(t, at, s),
    ensures
        t[at].item is Name || t[at].item is Ellipsis,
{
}

#[verifier::rlimit(50)]
proof fn lemma_selection_read_back(t: Tokens, at: int, s: SelectionView, limit: nat)
    requires
        complete(t),
        0 <= at,
        at + selection_len(s) < t.len(),
        selection_written(t, at, s),
        selection_ok(s, limit),
        ends_selection(t[at + selection_len(s)].item),
    ensures
        reads(spec_selection(t, at), s, at + selection_len(s)),
    decreases s, 0int,
{
    match s {
        SelectionView::Field(f) => {
            let name_at = if f.item.alias is Some {
                at + 2
            } else {
                at
            };
            let arguments_at = name_at + 1;
            let directives_at = arguments_at + arguments_len(f.item.arguments);
            let set_at = directives_at + directives_len(f.item.directives);
            lemma_directives_start(t, directives_at, f.item.directives, limit);
            lemma_arguments_read_back(t, arguments_at, f.item.arguments, limit);
            lemma_directives_read_back(t, directives_at, f.item.directives, limit);
            match f.item.selection_set {
                Some(set) => {
                    lemma_selection_set_read_back(t, at, set_at, set, limit);
                    match spec_selection_set(t, set_at) {
                        Ok((r, _)) => {
                            lemma_bare_selections(r.item);
                            lemma_bare_selections(set);
                        },
                        Err(_) => {},
                    }
                },
                None => {},
            }
            assert(reads(spec_field(t, at), f, at + selection_len(s)));
        },
        SelectionView::FragmentSpread(f) => {
            lemma_directives_read_back(t, at + 2, f.item.directives, limit);
        },
        SelectionView::InlineFragment(f) => {
            let directives_at = if f.item.type_condition is Some {
                at + 3
            } else {
                at + 1
            };
            let set_at = directives_at + directives_len(f.item.directives);
            lemma_directives_start(t, directives_at, f.item.directives, limit);
            lemma_directives_read_back(t, directives_at, f.item.directives, limit);
            lemma_selection_set_read_back(t, at, set_at, f.item.selection_set, limit);
            match spec_selection_set(t, set_at) {
                Ok((r, _)) => {
                    lemma_bare_selections(r.item);
                    lemma_bare_selections(f.item.selection_set);
                },
                Err(_) => {},
            }
            assert(reads(
                spec_inline_fragment(t, at, directives_at, f.item.type_condition),
                s,
                at + selection_len(s),
            ));
        },
    }
}

/// Directives that are there are written with an at sign in front.
proof fn lemma_directives_start(t: Tokens, at: int, d: Option<DirectiveViews>, limit: nat)
    requires
        directives_written(t, at, d),
        directives_ok(d, limit),
    ensures
        d is Some ==> t[at].item is At,
{
}

#[verifier::rlimit(50)]
proof fn lemma_definition_read_back(t: Tokens, at: int, d: DefinitionView, limit: nat)
    requires
        complete(t),
        0 <= at,
        at + definition_len(d) < t.len(),
        definition_written(t, at, d),
        definition_ok(d, limit),
    ensures
        reads(spec_definition(t, at), d, at + definition_len(d)),
{
    lemma_definition_keywords_differ();
    match d {
        DefinitionView::Operation(o) => {
            let variables_at = if o.item.name is Some {
                at + 2
            } else {
                at + 1
            };
            let directives_at = variables_at + variable_definitions_len(
                o.item.variable_definitions,
            );
            let set_at = directives_at + directives_len(o.item.directives);
            lemma_directives_start(t, directives_at, o.item.directives, limit);
            lemma_variable_definitions_read_back(
                t,
                variables_at,
                o.item.variable_definitions,
                limit,
            );
            lemma_directives_read_back(t, directives_at, o.item.directives, limit);
            lemma_selection_set_read_back(t, at, set_at, o.item.selection_set, limit);
            match spec_selection_set(t, set_at) {
                Ok((r, _)) => {
                    lemma_bare_selections(r.item);
                    lemma_bare_selections(o.item.selection_set);
                },
                Err(_) => {},
            }
            assert(reads(spec_operation(t, at), o, at + definition_len(d)));
        },
        DefinitionView::Fragment(f) => {
            let set_at = at + 4 + directives_len(f.item.directives);
            lemma_directives_start(t, at + 4, f.item.directives, limit);
            lemma_directives_read_back(t, at + 4, f.item.directives, limit);
            lemma_selection_set_read_back(t, at, set_at, f.item.selection_set, limit);
            match spec_selection_set(t, set_at) {
                Ok((r, _)) => {
                    lemma_bare_selections(r.item);
                    lemma_bare_selections(f.item.selection_set);
                },
                Err(_) => {},
            }
            assert(reads(spec_fragment(t, at), f, at + definition_len(d)));
        },
    }
}

proof fn lemma_definitions_read_back(
    t: Tokens,
    at: int,
    d: Seq<DefinitionView>,
    limit: nat,
    read: Seq<DefinitionView>,
)
    requires
        complete(t),
        0 <= at,
        at + definitions_len(d) < t.len(),
        d.len() > 0,
        definitions_written(t, at, d),
        t[at + definitions_len(d)].item is EndOfFile,
        forall|i: int| 0 <= i < d.len() ==> definition_ok(#[trigger] d[i], limit),
    ensures
        reads(spec_definitions(t, at, read), read + d, at + definitions_len(d)),
    decreases d.len(),
{
    let first = d[0];
    let rest = d.drop_first();
    reveal_with_fuel(definitions_written, 2);
    reveal_with_fuel(definitions_len, 2);
    lemma_definition_read_back(t, at, first, limit);
    match spec_definition(t, at) {
        Ok((w, next)) => {
            lemma_read_one_more(read, w, d);
            if rest.len() == 0 {
                assert(read.push(w) + rest =~= read.push(w));
            } else {
                assert forall|i: int| 0 <= i < rest.len() implies definition_ok(
                    #[trigger] rest[i],
                    limit,
                ) by {
                    assert(rest[i] == d[i + 1]);
                }
                lemma_definitions_read_back(t, next, rest, limit, read.push(w));
            }
        },
        Err(_) => {},
    }
}

/// A document that is written down is read back. Tokens that spell a
/// document as the parser returns it, one that `document_ok` holds of,
/// are parsed to that document, but for the places in it.
pub proof fn lemma_written_document_is_read_back(t: Tokens, d: Seq<DefinitionView>, limit: nat)
    requires
        document_written(t, d),
        document_ok(d, limit),
    ensures
        bare_result(spec_document(t)) == Ok::<Seq<DefinitionView>, ParseErrorView>(d.bare()),
{
    lemma_definitions_read_back(t, 0, d, limit, Seq::empty());
    assert(Seq::<DefinitionView>::empty() + d =~= d);
}

} // verus!
