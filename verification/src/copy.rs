//! Copies of trees: `clone` for every type of the syntax tree. A copy
//! stands for the same tree as the node it was made of.

use vstd::prelude::*;
use crate::ast::{
    lemma_field_view, lemma_inline_fragment_view, lemma_list_view, lemma_object_view, Arguments,
    Definition, Directive, Field, Fragment, FragmentSpread, InlineFragment, InputValue, Operation,
    Selection, Type, VariableDefinition, VariableDefinitions,
};
use crate::position::Spanning;

verus! {

fn clone_name(name: &Spanning<String>) -> (r: Spanning<String>)
    ensures
        r == *name,
{
    Spanning { start: name.start, end: name.end, item: name.item.clone() }
}

fn clone_optional_name(name: &Option<Spanning<String>>) -> (r: Option<Spanning<String>>)
    ensures
        r == *name,
{
    match name {
        Some(n) => Some(clone_name(n)),
        None => None,
    }
}

impl Clone for Type {
    fn clone(&self) -> (r: Type)
        ensures
            r.deep_view() == self.deep_view(),
        decreases self,
    {
        match self {
            Type::Named(name) => Type::Named(name.clone()),
            Type::List(inner) => Type::List(Box::new((&**inner).clone())),
            Type::NonNullNamed(name) => Type::NonNullNamed(name.clone()),
            Type::NonNullList(inner) => Type::NonNullList(Box::new((&**inner).clone())),
        }
    }
}

fn clone_values(items: &Vec<Spanning<InputValue>>) -> (r: Vec<Spanning<InputValue>>)
    ensures
        r.deep_view() == items.deep_view(),
    decreases items,
{
    let mut out: Vec<Spanning<InputValue>> = Vec::new();
    let mut i: usize = 0;
    while i < items.len()
        invariant
            i <= items@.len(),
            out@.len() == i,
            forall|k: int| 0 <= k < i ==> (#[trigger] out@[k]).deep_view() == items@[k].deep_view(),
        decreases items@.len() - i,
    {
        let item = &items[i];
        out.push(Spanning { start: item.start, end: item.end, item: clone_value(&item.item) });
        i = i + 1;
    }
    assert(out.deep_view() =~= items.deep_view());
    out
}

fn clone_fields(fields: &Vec<(Spanning<String>, Spanning<InputValue>)>) -> (r: Vec<
    (Spanning<String>, Spanning<InputValue>),
>)
    ensures
        r.deep_view() == fields.deep_view(),
    decreases fields,
{
    let mut out: Vec<(Spanning<String>, Spanning<InputValue>)> = Vec::new();
    let mut i: usize = 0;
    while i < fields.len()
        invariant
            i <= fields@.len(),
            out@.len() == i,
            forall|k: int|
                0 <= k < i ==> (#[trigger] out@[k]).deep_view() == fields@[k].deep_view(),
        decreases fields@.len() - i,
    {
        let field = &fields[i];
        out.push(
            (
                clone_name(&field.0),
                Spanning {
                    start: field.1.start,
                    end: field.1.end,
                    item: clone_value(&field.1.item),
                },
            ),
        );
        i = i + 1;
    }
    assert(out.deep_view() =~= fields.deep_view());
    out
}

fn clone_value(v: &InputValue) -> (r: InputValue)
    ensures
        r.deep_view() == v.deep_view(),
    decreases v,
{
    match v {
        InputValue::Null => InputValue::Null,
        InputValue::Int(i) => InputValue::Int(*i),
        InputValue::Float(s) => InputValue::Float(s.clone()),
        InputValue::String(s) => InputValue::String(s.clone()),
        InputValue::Boolean(b) => InputValue::Boolean(*b),
        InputValue::Enum(s) => InputValue::Enum(s.clone()),
        InputValue::Variable(s) => InputValue::Variable(s.clone()),
        InputValue::List(items) => {
            let copy = clone_values(items);
            proof {
                lemma_list_view(*items);
                lemma_list_view(copy);
            }
            InputValue::List(copy)
        },
        InputValue::Object(fields) => {
            let copy = clone_fields(fields);
            proof {
                lemma_object_view(*fields);
                lemma_object_view(copy);
            }
            InputValue::Object(copy)
        },
    }
}

impl Clone for InputValue {
    fn clone(&self) -> (r: InputValue)
        ensures
            r.deep_view() == self.deep_view(),
    {
        clone_value(self)
    }
}

fn clone_spanned_value(v: &Spanning<InputValue>) -> (r: Spanning<InputValue>)
    ensures
        r.deep_view() == v.deep_view(),
{
    Spanning { start: v.start, end: v.end, item: clone_value(&v.item) }
}

impl Clone for Arguments {
    fn clone(&self) -> (r: Arguments)
        ensures
            r.deep_view() == self.deep_view(),
    {
        Arguments { items: clone_fields(&self.items) }
    }
}

fn clone_arguments(a: &Option<Spanning<Arguments>>) -> (r: Option<Spanning<Arguments>>)
    ensures
        r.deep_view() == a.deep_view(),
{
    match a {
        Some(a) => Some(Spanning { start: a.start, end: a.end, item: a.item.clone() }),
        None => None,
    }
}

impl Clone for Directive {
    fn clone(&self) -> (r: Directive)
        ensures
            r.deep_view() == self.deep_view(),
    {
        Directive { name: clone_name(&self.name), arguments: clone_arguments(&self.arguments) }
    }
}

fn clone_directives(d: &Option<Vec<Spanning<Directive>>>) -> (r: Option<Vec<Spanning<Directive>>>)
    ensures
        r.deep_view() == d.deep_view(),
{
    match d {
        None => None,
        Some(items) => {
            let mut out: Vec<Spanning<Directive>> = Vec::new();
            let mut i: usize = 0;
            while i < items.len()
                invariant
                    i <= items@.len(),
                    out@.len() == i,
                    forall|k: int|
                        0 <= k < i ==> (#[trigger] out@[k]).deep_view() == items@[k].deep_view(),
                decreases items@.len() - i,
            {
                let item = &items[i];
                out.push(Spanning { start: item.start, end: item.end, item: item.item.clone() });
                i = i + 1;
            }
            assert(out.deep_view() =~= items.deep_view());
            Some(out)
        },
    }
}

impl Clone for VariableDefinition {
    fn clone(&self) -> (r: VariableDefinition)
        ensures
            r.deep_view() == self.deep_view(),
    {
        VariableDefinition {
            var_type: Spanning {
                start: self.var_type.start,
                end: self.var_type.end,
                item: self.var_type.item.clone(),
            },
            default_value: match &self.default_value {
                Some(v) => Some(clone_spanned_value(v)),
                None => None,
            },
        }
    }
}

impl Clone for VariableDefinitions {
    fn clone(&self) -> (r: VariableDefinitions)
        ensures
            r.deep_view() == self.deep_view(),
    {
        let mut out: Vec<(Spanning<String>, VariableDefinition)> = Vec::new();
        let mut i: usize = 0;
        while i < self.items.len()
            invariant
                i <= self.items@.len(),
                out@.len() == i,
                forall|k: int|
                    0 <= k < i ==> (#[trigger] out@[k]).deep_view() == self.items@[k].deep_view(),
            decreases self.items@.len() - i,
        {
            let item = &self.items[i];
            out.push((clone_name(&item.0), item.1.clone()));
            i = i + 1;
        }
        assert(out.deep_view() =~= self.items.deep_view());
        VariableDefinitions { items: out }
    }
}

fn clone_selections(set: &Vec<Selection>) -> (r: Vec<Selection>)
    ensures
        r.deep_view() == set.deep_view(),
    decreases set,
{
    let mut out: Vec<Selection> = Vec::new();
    let mut i: usize = 0;
    while i < set.len()
        invariant
            i <= set@.len(),
            out@.len() == i,
            forall|k: int| 0 <= k < i ==> (#[trigger] out@[k]).deep_view() == set@[k].deep_view(),
        decreases set@.len() - i,
    {
        out.push(clone_selection(&set[i]));
        i = i + 1;
    }
    assert(out.deep_view() =~= set.deep_view());
    out
}

fn clone_field(f: &Field) -> (r: Field)
    ensures
        r.deep_view() == f.deep_view(),
    decreases f,
{
    Field {
        alias: clone_optional_name(&f.alias),
        name: clone_name(&f.name),
        arguments: clone_arguments(&f.arguments),
        directives: clone_directives(&f.directives),
        selection_set: match &f.selection_set {
            Some(set) => Some(clone_selections(set)),
            None => None,
        },
    }
}

fn clone_inline_fragment(f: &InlineFragment) -> (r: InlineFragment)
    ensures
        r.deep_view() == f.deep_view(),
    decreases f,
{
    InlineFragment {
        type_condition: clone_optional_name(&f.type_condition),
        directives: clone_directives(&f.directives),
        selection_set: clone_selections(&f.selection_set),
    }
}

fn clone_selection(s: &Selection) -> (r: Selection)
    ensures
        r.deep_view() == s.deep_view(),
    decreases s,
{
    match s {
        Selection::Field(f) => {
            let copy = Spanning { start: f.start, end: f.end, item: clone_field(&f.item) };
            proof {
                lemma_field_view(*f);
                lemma_field_view(copy);
            }
            Selection::Field(copy)
        },
        Selection::FragmentSpread(f) => Selection::FragmentSpread(
            Spanning { start: f.start, end: f.end, item: f.item.clone() },
        ),
        Selection::InlineFragment(f) => {
            let copy = Spanning { start: f.start, end: f.end, item: clone_inline_fragment(&f.item) };
            proof {
                lemma_inline_fragment_view(*f);
                lemma_inline_fragment_view(copy);
            }
            Selection::InlineFragment(copy)
        },
    }
}

impl Clone for FragmentSpread {
    fn clone(&self) -> (r: FragmentSpread)
        ensures
            r.deep_view() == self.deep_view(),
    {
        FragmentSpread {
            name: clone_name(&self.name),
            directives: clone_directives(&self.directives),
        }
    }
}

impl Clone for Field {
    fn clone(&self) -> (r: Field)
        ensures
            r.deep_view() == self.deep_view(),
    {
        clone_field(self)
    }
}

impl Clone for InlineFragment {
    fn clone(&self) -> (r: InlineFragment)
        ensures
            r.deep_view() == self.deep_view(),
    {
        clone_inline_fragment(self)
    }
}

impl Clone for Selection {
    fn clone(&self) -> (r: Selection)
        ensures
            r.deep_view() == self.deep_view(),
    {
        clone_selection(self)
    }
}

impl Clone for Operation {
    fn clone(&self) -> (r: Operation)
        ensures
            r.deep_view() == self.deep_view(),
    {
        Operation {
            operation_type: self.operation_type,
            name: clone_optional_name(&self.name),
            variable_definitions: match &self.variable_definitions {
                Some(v) => Some(Spanning { start: v.start, end: v.end, item: v.item.clone() }),
                None => None,
            },
            directives: clone_directives(&self.directives),
            selection_set: clone_selections(&self.selection_set),
        }
    }
}

impl Clone for Fragment {
    fn clone(&self) -> (r: Fragment)
        ensures
            r.deep_view() == self.deep_view(),
    {
        Fragment {
            name: clone_name(&self.name),
            type_condition: clone_name(&self.type_condition),
            directives: clone_directives(&self.directives),
            selection_set: clone_selections(&self.selection_set),
        }
    }
}

impl Clone for Definition {
    fn clone(&self) -> (r: Definition)
        ensures
            r.deep_view() == self.deep_view(),
    {
        match self {
            Definition::Operation(o) => Definition::Operation(
                Spanning { start: o.start, end: o.end, item: o.item.clone() },
            ),
            Definition::Fragment(f) => Definition::Fragment(
                Spanning { start: f.start, end: f.end, item: f.item.clone() },
            ),
        }
    }
}

} // verus!
