//! The syntax tree of a query document, and what each node of it stands
//! for.
//!
//! Every type of the tree has a companion whose name ends in `View`: the
//! same node as a mathematical value, with sequences for vectors and
//! strings. `deep_view` leads from a node to its companion, and the
//! specification of the parser speaks of the companions only.

use vstd::prelude::*;
use crate::position::Spanning;

verus! {

/// A reference to a type: a named type or a list, either of them with or
/// without the mark that forbids null.
#[derive(Debug, PartialEq, Eq, Hash)]
pub enum Type {
    Named(String),
    List(Box<Type>),
    NonNullNamed(String),
    NonNullList(Box<Type>),
}

/// A value written in a document.
///
/// A `Float` keeps the text of the number as it was written. The fields of
/// an `Object` stand in the order of the source, and a name may occur more
/// than once among them.
#[derive(Debug, PartialEq, Eq, Hash)]
pub enum InputValue {
    Null,
    Int(i64),
    Float(String),
    String(String),
    Boolean(bool),
    Enum(String),
    Variable(String),
    List(Vec<Spanning<InputValue>>),
    Object(Vec<(Spanning<String>, Spanning<InputValue>)>),
}

#[derive(Debug, PartialEq, Eq, Hash)]
pub struct VariableDefinition {
    pub var_type: Spanning<Type>,
    pub default_value: Option<Spanning<InputValue>>,
}

#[derive(Debug, PartialEq, Eq, Hash)]
pub struct Arguments {
    pub items: Vec<(Spanning<String>, Spanning<InputValue>)>,
}

#[derive(Debug, PartialEq, Eq, Hash)]
pub struct VariableDefinitions {
    pub items: Vec<(Spanning<String>, VariableDefinition)>,
}

#[derive(Debug, PartialEq, Eq, Hash)]
pub struct Directive {
    pub name: Spanning<String>,
    pub arguments: Option<Spanning<Arguments>>,
}

#[derive(Debug, PartialEq, Eq, Hash)]
pub struct Field {
    pub alias: Option<Spanning<String>>,
    pub name: Spanning<String>,
    pub arguments: Option<Spanning<Arguments>>,
    pub directives: Option<Vec<Spanning<Directive>>>,
    pub selection_set: Option<Vec<Selection>>,
}

#[derive(Debug, PartialEq, Eq, Hash)]
pub struct FragmentSpread {
    pub name: Spanning<String>,
    pub directives: Option<Vec<Spanning<Directive>>>,
}

#[derive(Debug, PartialEq, Eq, Hash)]
pub struct InlineFragment {
    pub type_condition: Option<Spanning<String>>,
    pub directives: Option<Vec<Spanning<Directive>>>,
    pub selection_set: Vec<Selection>,
}

#[derive(Debug, PartialEq, Eq, Hash)]
pub enum Selection {
    Field(Spanning<Field>),
    FragmentSpread(Spanning<FragmentSpread>),
    InlineFragment(Spanning<InlineFragment>),
}

#[derive(Clone, Copy, Debug, PartialEq, Eq, Hash)]
pub enum OperationType {
    Query,
    Mutation,
}

#[derive(Debug, PartialEq, Eq, Hash)]
pub struct Operation {
    pub operation_type: OperationType,
    pub name: Option<Spanning<String>>,
    pub variable_definitions: Option<Spanning<VariableDefinitions>>,
    pub directives: Option<Vec<Spanning<Directive>>>,
    pub selection_set: Vec<Selection>,
}

#[derive(Debug, PartialEq, Eq, Hash)]
pub struct Fragment {
    pub name: Spanning<String>,
    pub type_condition: Spanning<String>,
    pub directives: Option<Vec<Spanning<Directive>>>,
    pub selection_set: Vec<Selection>,
}

#[derive(Debug, PartialEq, Eq, Hash)]
pub enum Definition {
    Operation(Spanning<Operation>),
    Fragment(Spanning<Fragment>),
}

/// A document: its definitions in the order of the source.
pub type Document = Vec<Definition>;

pub enum TypeView {
    Named(Seq<char>),
    List(Box<TypeView>),
    NonNullNamed(Seq<char>),
    NonNullList(Box<TypeView>),
}

pub enum InputValueView {
    Null,
    Int(i64),
    Float(Seq<char>),
    String(Seq<char>),
    Boolean(bool),
    Enum(Seq<char>),
    Variable(Seq<char>),
    List(Seq<Spanning<InputValueView>>),
    Object(Seq<(Spanning<Seq<char>>, Spanning<InputValueView>)>),
}

pub struct VariableDefinitionView {
    pub var_type: Spanning<TypeView>,
    pub default_value: Option<Spanning<InputValueView>>,
}

pub struct ArgumentsView {
    pub items: Seq<(Spanning<Seq<char>>, Spanning<InputValueView>)>,
}

pub struct VariableDefinitionsView {
    pub items: Seq<(Spanning<Seq<char>>, VariableDefinitionView)>,
}

pub struct DirectiveView {
    pub name: Spanning<Seq<char>>,
    pub arguments: Option<Spanning<ArgumentsView>>,
}

pub struct FieldView {
    pub alias: Option<Spanning<Seq<char>>>,
    pub name: Spanning<Seq<char>>,
    pub arguments: Option<Spanning<ArgumentsView>>,
    pub directives: Option<Seq<Spanning<DirectiveView>>>,
    pub selection_set: Option<Seq<SelectionView>>,
}

pub struct FragmentSpreadView {
    pub name: Spanning<Seq<char>>,
    pub directives: Option<Seq<Spanning<DirectiveView>>>,
}

pub struct InlineFragmentView {
    pub type_condition: Option<Spanning<Seq<char>>>,
    pub directives: Option<Seq<Spanning<DirectiveView>>>,
    pub selection_set: Seq<SelectionView>,
}

pub enum SelectionView {
    Field(Spanning<FieldView>),
    FragmentSpread(Spanning<FragmentSpreadView>),
    InlineFragment(Spanning<InlineFragmentView>),
}

pub struct OperationView {
    pub operation_type: OperationType,
    pub name: Option<Spanning<Seq<char>>>,
    pub variable_definitions: Option<Spanning<VariableDefinitionsView>>,
    pub directives: Option<Seq<Spanning<DirectiveView>>>,
    pub selection_set: Seq<SelectionView>,
}

pub struct FragmentView {
    pub name: Spanning<Seq<char>>,
    pub type_condition: Spanning<Seq<char>>,
    pub directives: Option<Seq<Spanning<DirectiveView>>>,
    pub selection_set: Seq<SelectionView>,
}

pub enum DefinitionView {
    Operation(Spanning<OperationView>),
    Fragment(Spanning<FragmentView>),
}

impl DeepView for Type {
    type V = TypeView;

    open spec fn deep_view(&self) -> TypeView
        decreases self,
    {
        match self {
            Type::Named(name) => TypeView::Named(name@),
            Type::List(inner) => TypeView::List(Box::new((**inner).deep_view())),
            Type::NonNullNamed(name) => TypeView::NonNullNamed(name@),
            Type::NonNullList(inner) => TypeView::NonNullList(Box::new((**inner).deep_view())),
        }
    }
}

/// What the items of a list value stand for, one by one.
pub open spec fn value_items_view(items: Seq<Spanning<InputValue>>) -> Seq<
    Spanning<InputValueView>,
>
    decreases items, 0int,
{
    Seq::new(
        items.len(),
        |i: int|
            if 0 <= i < items.len() {
                Spanning {
                    start: items[i].start,
                    end: items[i].end,
                    item: input_value_view(items[i].item),
                }
            } else {
                arbitrary()
            },
    )
}

/// What the fields of an object value stand for, one by one.
pub open spec fn value_fields_view(fields: Seq<(Spanning<String>, Spanning<InputValue>)>) -> Seq<
    (Spanning<Seq<char>>, Spanning<InputValueView>),
>
    decreases fields, 0int,
{
    Seq::new(
        fields.len(),
        |i: int|
            if 0 <= i < fields.len() {
                (
                    fields[i].0.deep_view(),
                    Spanning {
                        start: fields[i].1.start,
                        end: fields[i].1.end,
                        item: input_value_view(fields[i].1.item),
                    },
                )
            } else {
                arbitrary()
            },
    )
}

/// What the value `v` stands for.
pub open spec fn input_value_view(v: InputValue) -> InputValueView
    decreases v, 0int,
{
    match v {
        InputValue::Null => InputValueView::Null,
        InputValue::Int(i) => InputValueView::Int(i),
        InputValue::Float(s) => InputValueView::Float(s@),
        InputValue::String(s) => InputValueView::String(s@),
        InputValue::Boolean(b) => InputValueView::Boolean(b),
        InputValue::Enum(s) => InputValueView::Enum(s@),
        InputValue::Variable(s) => InputValueView::Variable(s@),
        InputValue::List(items) => InputValueView::List(value_items_view(items@)),
        InputValue::Object(fields) => InputValueView::Object(value_fields_view(fields@)),
    }
}

impl DeepView for InputValue {
    type V = InputValueView;

    open spec fn deep_view(&self) -> InputValueView {
        input_value_view(*self)
    }
}

impl DeepView for VariableDefinition {
    type V = VariableDefinitionView;

    open spec fn deep_view(&self) -> VariableDefinitionView {
        VariableDefinitionView {
            var_type: self.var_type.deep_view(),
            default_value: self.default_value.deep_view(),
        }
    }
}

impl DeepView for Arguments {
    type V = ArgumentsView;

    open spec fn deep_view(&self) -> ArgumentsView {
        ArgumentsView { items: self.items.deep_view() }
    }
}

impl DeepView for VariableDefinitions {
    type V = VariableDefinitionsView;

    open spec fn deep_view(&self) -> VariableDefinitionsView {
        VariableDefinitionsView { items: self.items.deep_view() }
    }
}

impl DeepView for Directive {
    type V = DirectiveView;

    open spec fn deep_view(&self) -> DirectiveView {
        DirectiveView { name: self.name.deep_view(), arguments: self.arguments.deep_view() }
    }
}

impl DeepView for OperationType {
    type V = OperationType;

    open spec fn deep_view(&self) -> OperationType {
        *self
    }
}

/// What the selections `set` stand for, one by one.
pub open spec fn selections_view(set: Seq<Selection>) -> Seq<SelectionView>
    decreases set, 0int,
{
    Seq::new(
        set.len(),
        |i: int|
            if 0 <= i < set.len() {
                selection_view(set[i])
            } else {
                arbitrary()
            },
    )
}

/// What the selection `s` stands for.
pub open spec fn selection_view(s: Selection) -> SelectionView
    decreases s, 0int,
{
    match s {
        Selection::Field(f) => SelectionView::Field(
            Spanning {
                start: f.start,
                end: f.end,
                item: FieldView {
                    alias: f.item.alias.deep_view(),
                    name: f.item.name.deep_view(),
                    arguments: f.item.arguments.deep_view(),
                    directives: f.item.directives.deep_view(),
                    selection_set: match f.item.selection_set {
                        Some(set) => Some(selections_view(set@)),
                        None => None,
                    },
                },
            },
        ),
        Selection::FragmentSpread(f) => SelectionView::FragmentSpread(
            Spanning {
                start: f.start,
                end: f.end,
                item: FragmentSpreadView {
                    name: f.item.name.deep_view(),
                    directives: f.item.directives.deep_view(),
                },
            },
        ),
        Selection::InlineFragment(f) => SelectionView::InlineFragment(
            Spanning {
                start: f.start,
                end: f.end,
                item: InlineFragmentView {
                    type_condition: f.item.type_condition.deep_view(),
                    directives: f.item.directives.deep_view(),
                    selection_set: selections_view(f.item.selection_set@),
                },
            },
        ),
    }
}

impl DeepView for Selection {
    type V = SelectionView;

    open spec fn deep_view(&self) -> SelectionView {
        selection_view(*self)
    }
}

impl DeepView for Field {
    type V = FieldView;

    open spec fn deep_view(&self) -> FieldView {
        FieldView {
            alias: self.alias.deep_view(),
            name: self.name.deep_view(),
            arguments: self.arguments.deep_view(),
            directives: self.directives.deep_view(),
            selection_set: self.selection_set.deep_view(),
        }
    }
}

impl DeepView for FragmentSpread {
    type V = FragmentSpreadView;

    open spec fn deep_view(&self) -> FragmentSpreadView {
        FragmentSpreadView {
            name: self.name.deep_view(),
            directives: self.directives.deep_view(),
        }
    }
}

impl DeepView for InlineFragment {
    type V = InlineFragmentView;

    open spec fn deep_view(&self) -> InlineFragmentView {
        InlineFragmentView {
            type_condition: self.type_condition.deep_view(),
            directives: self.directives.deep_view(),
            selection_set: self.selection_set.deep_view(),
        }
    }
}

impl DeepView for Operation {
    type V = OperationView;

    open spec fn deep_view(&self) -> OperationView {
        OperationView {
            operation_type: self.operation_type,
            name: self.name.deep_view(),
            variable_definitions: self.variable_definitions.deep_view(),
            directives: self.directives.deep_view(),
            selection_set: self.selection_set.deep_view(),
        }
    }
}

impl DeepView for Fragment {
    type V = FragmentView;

    open spec fn deep_view(&self) -> FragmentView {
        FragmentView {
            name: self.name.deep_view(),
            type_condition: self.type_condition.deep_view(),
            directives: self.directives.deep_view(),
            selection_set: self.selection_set.deep_view(),
        }
    }
}

impl DeepView for Definition {
    type V = DefinitionView;

    open spec fn deep_view(&self) -> DefinitionView {
        match self {
            Definition::Operation(o) => DefinitionView::Operation(o.deep_view()),
            Definition::Fragment(f) => DefinitionView::Fragment(f.deep_view()),
        }
    }
}

/// A list value stands for the list of what its items stand for.
pub proof fn lemma_list_view(items: Vec<Spanning<InputValue>>)
    ensures
        InputValue::List(items).deep_view() == InputValueView::List(items.deep_view()),
{
    assert(value_items_view(items@) =~= items.deep_view());
}

/// An object value stands for the list of what its fields stand for.
pub proof fn lemma_object_view(fields: Vec<(Spanning<String>, Spanning<InputValue>)>)
    ensures
        InputValue::Object(fields).deep_view() == InputValueView::Object(fields.deep_view()),
{
    assert(value_fields_view(fields@) =~= fields.deep_view());
}

/// A vector of selections stands for what `selections_view` says.
pub proof fn lemma_selections_view(set: Vec<Selection>)
    ensures
        set.deep_view() == selections_view(set@),
{
    assert(set.deep_view() =~= selections_view(set@));
}

/// A field selection stands for the field that it wraps.
pub proof fn lemma_field_view(f: Spanning<Field>)
    ensures
        Selection::Field(f).deep_view() == SelectionView::Field(f.deep_view()),
{
    match f.item.selection_set {
        Some(set) => {
            lemma_selections_view(set);
        },
        None => {},
    }
}

/// An inline fragment selection stands for the fragment that it wraps.
pub proof fn lemma_inline_fragment_view(f: Spanning<InlineFragment>)
    ensures
        Selection::InlineFragment(f).deep_view() == SelectionView::InlineFragment(f.deep_view()),
{
    lemma_selections_view(f.item.selection_set);
}

} // verus!
