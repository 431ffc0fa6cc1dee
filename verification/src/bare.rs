//! Trees without places: what is left of a tree when the places of its
//! parts are forgotten. Two trees that differ only in where their parts
//! stood in the source are the same tree without places.

use vstd::prelude::*;
use crate::ast::{
    ArgumentsView, DefinitionView, DirectiveView, FieldView, FragmentSpreadView, FragmentView,
    InlineFragmentView, InputValueView, OperationType, OperationView, SelectionView, TypeView,
    VariableDefinitionView, VariableDefinitionsView,
};
use crate::position::{SourcePosition, Spanning};

verus! {

/// The place that stands for no place.
pub open spec fn nowhere() -> SourcePosition {
    SourcePosition { index: 0, line: 0, col: 0 }
}

/// A value that may hold places, and the same value without them.
pub trait Bare: Sized {
    /// The same value, with every place in it replaced by `nowhere()`.
    spec fn bare(self) -> Self;
}

impl Bare for SourcePosition {
    open spec fn bare(self) -> SourcePosition {
        nowhere()
    }
}

impl Bare for OperationType {
    open spec fn bare(self) -> OperationType {
        self
    }
}

impl Bare for char {
    open spec fn bare(self) -> char {
        self
    }
}

impl<T: Bare> Bare for Seq<T> {
    open spec fn bare(self) -> Seq<T> {
        bare_items(self)
    }
}

impl Bare for TypeView {
    open spec fn bare(self) -> TypeView {
        self
    }
}

impl<T: Bare> Bare for Spanning<T> {
    open spec fn bare(self) -> Spanning<T> {
        Spanning { start: nowhere(), end: nowhere(), item: self.item.bare() }
    }
}

impl<T: Bare> Bare for Option<T> {
    open spec fn bare(self) -> Option<T> {
        match self {
            Some(x) => Some(x.bare()),
            None => None,
        }
    }
}

impl<A: Bare, B: Bare> Bare for (A, B) {
    open spec fn bare(self) -> (A, B) {
        (self.0.bare(), self.1.bare())
    }
}

/// The items of `s` without places, one by one.
pub open spec fn bare_items<T: Bare>(s: Seq<T>) -> Seq<T> {
    Seq::new(s.len(), |i: int| s[i].bare())
}

/// The value `v` without places.
pub open spec fn bare_value(v: InputValueView) -> InputValueView
    decreases v,
{
    match v {
        InputValueView::List(items) => InputValueView::List(
            Seq::new(
                items.len(),
                |i: int|
                    if 0 <= i < items.len() {
                        Spanning {
                            start: nowhere(),
                            end: nowhere(),
                            item: bare_value(items[i].item),
                        }
                    } else {
                        arbitrary()
                    },
            ),
        ),
        InputValueView::Object(fields) => InputValueView::Object(
            Seq::new(
                fields.len(),
                |i: int|
                    if 0 <= i < fields.len() {
                        (
                            fields[i].0.bare(),
                            Spanning {
                                start: nowhere(),
                                end: nowhere(),
                                item: bare_value(fields[i].1.item),
                            },
                        )
                    } else {
                        arbitrary()
                    },
            ),
        ),
        other => other,
    }
}

impl Bare for InputValueView {
    open spec fn bare(self) -> InputValueView {
        bare_value(self)
    }
}

impl Bare for ArgumentsView {
    open spec fn bare(self) -> ArgumentsView {
        ArgumentsView { items: self.items.bare() }
    }
}

impl Bare for DirectiveView {
    open spec fn bare(self) -> DirectiveView {
        DirectiveView { name: self.name.bare(), arguments: self.arguments.bare() }
    }
}

impl Bare for VariableDefinitionView {
    open spec fn bare(self) -> VariableDefinitionView {
        VariableDefinitionView {
            var_type: self.var_type.bare(),
            default_value: self.default_value.bare(),
        }
    }
}

impl Bare for VariableDefinitionsView {
    open spec fn bare(self) -> VariableDefinitionsView {
        VariableDefinitionsView { items: self.items.bare() }
    }
}

/// The directives of a construct without places.
pub open spec fn bare_directives(d: Option<Seq<Spanning<DirectiveView>>>) -> Option<
    Seq<Spanning<DirectiveView>>,
> {
    match d {
        Some(d) => Some(bare_items(d)),
        None => None,
    }
}

/// The selections `set` without places, one by one.
pub open spec fn bare_selections(set: Seq<SelectionView>) -> Seq<SelectionView>
    decreases set,
{
    Seq::new(
        set.len(),
        |i: int|
            if 0 <= i < set.len() {
                bare_selection(set[i])
            } else {
                arbitrary()
            },
    )
}

/// The selection `s` without places.
pub open spec fn bare_selection(s: SelectionView) -> SelectionView
    decreases s,
{
    match s {
        SelectionView::Field(f) => SelectionView::Field(
            Spanning {
                start: nowhere(),
                end: nowhere(),
                item: FieldView {
                    alias: f.item.alias.bare(),
                    name: f.item.name.bare(),
                    arguments: f.item.arguments.bare(),
                    directives: bare_directives(f.item.directives),
                    selection_set: match f.item.selection_set {
                        Some(set) => Some(bare_selections(set)),
                        None => None,
                    },
                },
            },
        ),
        SelectionView::FragmentSpread(f) => SelectionView::FragmentSpread(
            Spanning {
                start: nowhere(),
                end: nowhere(),
                item: FragmentSpreadView {
                    name: f.item.name.bare(),
                    directives: bare_directives(f.item.directives),
                },
            },
        ),
        SelectionView::InlineFragment(f) => SelectionView::InlineFragment(
            Spanning {
                start: nowhere(),
                end: nowhere(),
                item: InlineFragmentView {
                    type_condition: f.item.type_condition.bare(),
                    directives: bare_directives(f.item.directives),
                    selection_set: bare_selections(f.item.selection_set),
                },
            },
        ),
    }
}

impl Bare for FieldView {
    open spec fn bare(self) -> FieldView {
        FieldView {
            alias: self.alias.bare(),
            name: self.name.bare(),
            arguments: self.arguments.bare(),
            directives: bare_directives(self.directives),
            selection_set: match self.selection_set {
                Some(set) => Some(bare_selections(set)),
                None => None,
            },
        }
    }
}

impl Bare for SelectionView {
    open spec fn bare(self) -> SelectionView {
        bare_selection(self)
    }
}

impl Bare for OperationView {
    open spec fn bare(self) -> OperationView {
        OperationView {
            operation_type: self.operation_type,
            name: self.name.bare(),
            variable_definitions: self.variable_definitions.bare(),
            directives: bare_directives(self.directives),
            selection_set: bare_selections(self.selection_set),
        }
    }
}

impl Bare for FragmentView {
    open spec fn bare(self) -> FragmentView {
        FragmentView {
            name: self.name.bare(),
            type_condition: self.type_condition.bare(),
            directives: bare_directives(self.directives),
            selection_set: bare_selections(self.selection_set),
        }
    }
}

impl Bare for DefinitionView {
    open spec fn bare(self) -> DefinitionView {
        match self {
            DefinitionView::Operation(o) => DefinitionView::Operation(o.bare()),
            DefinitionView::Fragment(f) => DefinitionView::Fragment(f.bare()),
        }
    }
}

/// A list value without places is the list of its items without places.
pub proof fn lemma_bare_list(items: Seq<Spanning<InputValueView>>)
    ensures
        InputValueView::List(items).bare() == InputValueView::List(bare_items(items)),
{
    assert(bare_value(InputValueView::List(items))->List_0 =~= bare_items(items));
}

/// An object value without places is the list of its fields without
/// places.
pub proof fn lemma_bare_object(fields: Seq<(Spanning<Seq<char>>, Spanning<InputValueView>)>)
    ensures
        InputValueView::Object(fields).bare() == InputValueView::Object(bare_items(fields)),
{
    assert(bare_value(InputValueView::Object(fields))->Object_0 =~= bare_items(fields));
}

/// Selections without places are the selections, each without places.
pub proof fn lemma_bare_selections(set: Seq<SelectionView>)
    ensures
        bare_selections(set) == bare_items(set),
{
    assert(bare_selections(set) =~= bare_items(set));
}

/// Adding an item and forgetting the places comes to the same as
/// forgetting the places and adding the item without places.
pub proof fn lemma_bare_push<T: Bare>(s: Seq<T>, x: T)
    ensures
        bare_items(s.push(x)) == bare_items(s).push(x.bare()),
{
    assert(bare_items(s.push(x)) =~= bare_items(s).push(x.bare()));
}

} // verus!
