//! The grammar of documents, as functions from tokens to trees.
//!
//! Each function takes the tokens of a text and the index `at` of the token
//! where a construct should start. It yields what the construct stands for
//! and the index of the first token after it, or the failure that reading
//! it ends in. The tokens are those of a text: the last of them, and no
//! other, is `EndOfFile`.

use vstd::prelude::*;
use crate::ast::{
    ArgumentsView, DefinitionView, DirectiveView, FieldView, FragmentSpreadView, FragmentView,
    InlineFragmentView, InputValueView, OperationType, OperationView, SelectionView, TypeView,
    VariableDefinitionView, VariableDefinitionsView,
};
use crate::lexer::Tokens;
use crate::parser::{
    end_of_file_at, spec_expect, spec_expect_name, spec_next, spec_skip, unexpected_at,
    ParseErrorView, Parsed,
};
use crate::position::{SourcePosition, Spanning};
use crate::token::TokenView;
use crate::value::spec_value;

verus! {

/// A name with its place.
pub type NameView = Spanning<Seq<char>>;

/// An argument: a name and a value.
pub type ArgumentView = (NameView, Spanning<InputValueView>);

/// The directives of a construct, with their places.
pub type DirectiveViews = Seq<Spanning<DirectiveView>>;

/// The token that the name `word` is.
pub open spec fn keyword(word: &str) -> TokenView {
    TokenView::Name(word@)
}

/// The same type with the mark that forbids null.
pub open spec fn non_null(t: TypeView) -> TypeView {
    match t {
        TypeView::Named(name) => TypeView::NonNullNamed(name),
        TypeView::List(inner) => TypeView::NonNullList(inner),
        other => other,
    }
}

/// A type without a mark: a name, or a type in brackets.
pub open spec fn spec_base_type(tokens: Tokens, at: int) -> Parsed<Spanning<TypeView>>
    decreases tokens.len() - at, 0int,
    when 0 <= at < tokens.len()
{
    match spec_skip(tokens, at, TokenView::BracketOpen) {
        Err(e) => Err(e),
        Ok((Some(open), at1)) => match spec_type(tokens, at1) {
            Err(e) => Err(e),
            Ok((inner, at2)) => match spec_expect(tokens, at2, TokenView::BracketClose) {
                Err(e) => Err(e),
                Ok((close, at3)) => Ok(
                    (
                        Spanning {
                            start: open.start,
                            end: close.end,
                            item: TypeView::List(Box::new(inner.item)),
                        },
                        at3,
                    ),
                ),
            },
        },
        Ok((None, _)) => match spec_expect_name(tokens, at) {
            Err(e) => Err(e),
            Ok((name, at1)) => Ok(
                (
                    Spanning { start: name.start, end: name.end, item: TypeView::Named(name.item) },
                    at1,
                ),
            ),
        },
    }
}

/// A type: a name or a type in brackets, and after it at most one
/// exclamation mark, which forbids null.
pub open spec fn spec_type(tokens: Tokens, at: int) -> Parsed<Spanning<TypeView>>
    decreases tokens.len() - at, 1int,
    when 0 <= at < tokens.len()
{
    match spec_base_type(tokens, at) {
        Err(e) => Err(e),
        Ok((base, next)) => {
            if tokens[next].item is ExclamationMark {
                match spec_next(tokens, next) {
                    Err(e) => Err(e),
                    Ok((mark, after)) => Ok(
                        (
                            Spanning {
                                start: base.start,
                                end: mark.end,
                                item: non_null(base.item),
                            },
                            after,
                        ),
                    ),
                }
            } else {
                Ok((base, next))
            }
        },
    }
}

/// One argument: a name, a colon and a value, in which variables may stand.
pub open spec fn spec_argument(tokens: Tokens, at: int) -> Parsed<ArgumentView> {
    match spec_expect_name(tokens, at) {
        Err(e) => Err(e),
        Ok((name, at1)) => match spec_expect(tokens, at1, TokenView::Colon) {
            Err(e) => Err(e),
            Ok((_, at2)) => match spec_value(tokens, at2, false) {
                Err(e) => Err(e),
                Ok((value, next)) => Ok(((name, value), next)),
            },
        },
    }
}

/// The rest of a list of arguments from the token with index `at` on,
/// where `read` are the arguments before it: all the arguments, and the
/// place where the closing parenthesis ends. At least one argument stands
/// before the parenthesis.
pub open spec fn spec_argument_items(tokens: Tokens, at: int, read: Seq<ArgumentView>) -> Parsed<
    (Seq<ArgumentView>, SourcePosition),
>
    decreases tokens.len() - at,
    when 0 <= at < tokens.len()
{
    match spec_argument(tokens, at) {
        Err(e) => Err(e),
        Ok((argument, next)) => match spec_skip(tokens, next, TokenView::ParenClose) {
            Err(e) => Err(e),
            Ok((Some(close), after)) => Ok(((read.push(argument), close.end), after)),
            Ok((None, _)) => {
                if at < next <= tokens.len() {
                    spec_argument_items(tokens, next, read.push(argument))
                } else {
                    Err(end_of_file_at(tokens, at))
                }
            },
        },
    }
}

/// The arguments of a field or a directive, if an opening parenthesis
/// stands at `at`: one or more arguments in parentheses.
pub open spec fn spec_arguments(tokens: Tokens, at: int) -> Parsed<Option<Spanning<ArgumentsView>>> {
    if tokens[at].item != TokenView::ParenOpen {
        Ok((None, at))
    } else {
        match spec_next(tokens, at) {
            Err(e) => Err(e),
            Ok((open, at1)) => match spec_argument_items(tokens, at1, Seq::empty()) {
                Err(e) => Err(e),
                Ok(((items, end), next)) => Ok(
                    (Some(Spanning { start: open.start, end, item: ArgumentsView { items } }), next),
                ),
            },
        }
    }
}

/// One directive: an at sign, a name, and arguments if there are any.
pub open spec fn spec_directive(tokens: Tokens, at: int) -> Parsed<Spanning<DirectiveView>> {
    match spec_expect(tokens, at, TokenView::At) {
        Err(e) => Err(e),
        Ok((sign, at1)) => match spec_expect_name(tokens, at1) {
            Err(e) => Err(e),
            Ok((name, at2)) => match spec_arguments(tokens, at2) {
                Err(e) => Err(e),
                Ok((arguments, next)) => Ok(
                    (
                        Spanning {
                            start: sign.start,
                            end: match arguments {
                                Some(a) => a.end,
                                None => name.end,
                            },
                            item: DirectiveView { name, arguments },
                        },
                        next,
                    ),
                ),
            },
        },
    }
}

/// The rest of a run of directives from the token with index `at` on,
/// which is an at sign, where `read` are the directives before it. The run
/// ends before the first token that is no at sign.
pub open spec fn spec_directive_run(tokens: Tokens, at: int, read: DirectiveViews) -> Parsed<
    DirectiveViews,
>
    decreases tokens.len() - at,
    when 0 <= at < tokens.len()
{
    match spec_directive(tokens, at) {
        Err(e) => Err(e),
        Ok((directive, next)) => {
            if at < next < tokens.len() && tokens[next].item is At {
                spec_directive_run(tokens, next, read.push(directive))
            } else {
                Ok((read.push(directive), next))
            }
        },
    }
}

/// The directives of a construct, if an at sign stands at `at`: one or
/// more directives, spanned from the first to the last.
pub open spec fn spec_directives(tokens: Tokens, at: int) -> Parsed<
    Option<Spanning<DirectiveViews>>,
> {
    if !(tokens[at].item is At) {
        Ok((None, at))
    } else {
        match spec_directive_run(tokens, at, Seq::empty()) {
            Err(e) => Err(e),
            Ok((items, next)) => Ok(
                (
                    Some(Spanning { start: items.first().start, end: items.last().end, item: items }),
                    next,
                ),
            ),
        }
    }
}

/// The directives alone, without the place of the run.
pub open spec fn unspanned<T>(s: Option<Spanning<T>>) -> Option<T> {
    match s {
        Some(s) => Some(s.item),
        None => None,
    }
}

/// One definition of a variable: a dollar sign, a name, a colon, a type,
/// and after an equals sign a default value, in which no variable may
/// stand. The name is spanned from the dollar sign on.
pub open spec fn spec_variable_definition(tokens: Tokens, at: int) -> Parsed<
    (NameView, VariableDefinitionView),
> {
    match spec_expect(tokens, at, TokenView::Dollar) {
        Err(e) => Err(e),
        Ok((dollar, at1)) => match spec_expect_name(tokens, at1) {
            Err(e) => Err(e),
            Ok((name, at2)) => match spec_expect(tokens, at2, TokenView::Colon) {
                Err(e) => Err(e),
                Ok((_, at3)) => match spec_type(tokens, at3) {
                    Err(e) => Err(e),
                    Ok((var_type, at4)) => match spec_skip(tokens, at4, TokenView::Equals) {
                        Err(e) => Err(e),
                        Ok((Some(_), at5)) => match spec_value(tokens, at5, true) {
                            Err(e) => Err(e),
                            Ok((value, next)) => Ok(
                                (
                                    (
                                        Spanning {
                                            start: dollar.start,
                                            end: name.end,
                                            item: name.item,
                                        },
                                        VariableDefinitionView {
                                            var_type,
                                            default_value: Some(value),
                                        },
                                    ),
                                    next,
                                ),
                            ),
                        },
                        Ok((None, _)) => Ok(
                            (
                                (
                                    Spanning {
                                        start: dollar.start,
                                        end: name.end,
                                        item: name.item,
                                    },
                                    VariableDefinitionView { var_type, default_value: None },
                                ),
                                at4,
                            ),
                        ),
                    },
                },
            },
        },
    }
}

/// The rest of a list of variable definitions from the token with index
/// `at` on, where `read` are the definitions before it: all of them, and
/// the place where the closing parenthesis ends.
pub open spec fn spec_variable_definition_items(
    tokens: Tokens,
    at: int,
    read: Seq<(NameView, VariableDefinitionView)>,
) -> Parsed<(Seq<(NameView, VariableDefinitionView)>, SourcePosition)>
    decreases tokens.len() - at,
    when 0 <= at < tokens.len()
{
    match spec_variable_definition(tokens, at) {
        Err(e) => Err(e),
        Ok((definition, next)) => match spec_skip(tokens, next, TokenView::ParenClose) {
            Err(e) => Err(e),
            Ok((Some(close), after)) => Ok(((read.push(definition), close.end), after)),
            Ok((None, _)) => {
                if at < next <= tokens.len() {
                    spec_variable_definition_items(tokens, next, read.push(definition))
                } else {
                    Err(end_of_file_at(tokens, at))
                }
            },
        },
    }
}

/// The variable definitions of an operation, if an opening parenthesis
/// stands at `at`: one or more definitions in parentheses.
pub open spec fn spec_variable_definitions(tokens: Tokens, at: int) -> Parsed<
    Option<Spanning<VariableDefinitionsView>>,
> {
    if tokens[at].item != TokenView::ParenOpen {
        Ok((None, at))
    } else {
        match spec_next(tokens, at) {
            Err(e) => Err(e),
            Ok((open, at1)) => match spec_variable_definition_items(tokens, at1, Seq::empty()) {
                Err(e) => Err(e),
                Ok(((items, end), next)) => Ok(
                    (
                        Some(
                            Spanning {
                                start: open.start,
                                end,
                                item: VariableDefinitionsView { items },
                            },
                        ),
                        next,
                    ),
                ),
            },
        }
    }
}

/// A selection set: one or more selections in braces.
pub open spec fn spec_selection_set(tokens: Tokens, at: int) -> Parsed<
    Spanning<Seq<SelectionView>>,
>
    decreases tokens.len() - at, 0int,
    when 0 <= at < tokens.len()
{
    match spec_expect(tokens, at, TokenView::CurlyOpen) {
        Err(e) => Err(e),
        Ok((open, _)) => match spec_selections(tokens, at + 1, Seq::empty()) {
            Err(e) => Err(e),
            Ok(((items, end), next)) => Ok((Spanning { start: open.start, end, item: items }, next)),
        },
    }
}

/// The rest of a selection set from the token with index `at` on, where
/// `read` are the selections before it: all the selections, and the place
/// where the closing brace ends. At least one selection stands before the
/// brace.
pub open spec fn spec_selections(tokens: Tokens, at: int, read: Seq<SelectionView>) -> Parsed<
    (Seq<SelectionView>, SourcePosition),
>
    decreases tokens.len() - at, 5int,
    when 0 <= at
{
    if at >= tokens.len() {
        Err(end_of_file_at(tokens, at))
    } else {
        match spec_selection(tokens, at) {
            Err(e) => Err(e),
            Ok((selection, next)) => match spec_skip(tokens, next, TokenView::CurlyClose) {
                Err(e) => Err(e),
                Ok((Some(close), after)) => Ok(((read.push(selection), close.end), after)),
                Ok((None, _)) => {
                    if at < next <= tokens.len() {
                        spec_selections(tokens, next, read.push(selection))
                    } else {
                        Err(end_of_file_at(tokens, at))
                    }
                },
            },
        }
    }
}

/// One selection: after an ellipsis a fragment spread or an inline
/// fragment, and a field otherwise.
pub open spec fn spec_selection(tokens: Tokens, at: int) -> Parsed<SelectionView>
    decreases tokens.len() - at, 4int,
    when 0 <= at < tokens.len()
{
    if tokens[at].item is Ellipsis {
        spec_fragment_selection(tokens, at)
    } else {
        match spec_field(tokens, at) {
            Err(e) => Err(e),
            Ok((field, next)) => Ok((SelectionView::Field(field), next)),
        }
    }
}

/// A selection set at `at`, where the tokens from `from` up to `at` have
/// been read before it.
pub open spec fn spec_selection_set_after(tokens: Tokens, from: int, at: int) -> Parsed<
    Spanning<Seq<SelectionView>>,
>
    decreases tokens.len() - from, 1int,
    when 0 <= from < tokens.len()
{
    if from < at < tokens.len() {
        spec_selection_set(tokens, at)
    } else {
        Err(end_of_file_at(tokens, from))
    }
}

/// An inline fragment from the token with index `at` on, where the
/// ellipsis at `from` and a type condition, if there is one, have been
/// read: directives, if there are any, and a selection set.
pub open spec fn spec_inline_fragment(
    tokens: Tokens,
    from: int,
    at: int,
    type_condition: Option<NameView>,
) -> Parsed<SelectionView>
    decreases tokens.len() - from, 2int,
    when 0 <= from < tokens.len()
{
    match spec_directives(tokens, at) {
        Err(e) => Err(e),
        Ok((directives, at1)) => match spec_selection_set_after(tokens, from, at1) {
            Err(e) => Err(e),
            Ok((set, next)) => Ok(
                (
                    SelectionView::InlineFragment(
                        Spanning {
                            start: tokens[from].start,
                            end: set.end,
                            item: InlineFragmentView {
                                type_condition,
                                directives: unspanned(directives),
                                selection_set: set.item,
                            },
                        },
                    ),
                    next,
                ),
            ),
        },
    }
}

/// The selection that starts with the ellipsis at `at`. What stands after
/// the ellipsis decides: the name `on` starts the type condition of an
/// inline fragment; any other name is a fragment spread; an opening brace
/// or an at sign starts an inline fragment without a type condition.
pub open spec fn spec_fragment_selection(tokens: Tokens, at: int) -> Parsed<SelectionView>
    decreases tokens.len() - at, 3int,
    when 0 <= at < tokens.len()
{
    match spec_expect(tokens, at, TokenView::Ellipsis) {
        Err(e) => Err(e),
        Ok((_, at1)) => match tokens[at1].item {
            TokenView::Name(word) => {
                if word == "on"@ {
                    match spec_next(tokens, at1) {
                        Err(e) => Err(e),
                        Ok((_, at2)) => match spec_expect_name(tokens, at2) {
                            Err(e) => Err(e),
                            Ok((name, at3)) => spec_inline_fragment(tokens, at, at3, Some(name)),
                        },
                    }
                } else {
                    match spec_expect_name(tokens, at1) {
                        Err(e) => Err(e),
                        Ok((name, at2)) => match spec_directives(tokens, at2) {
                            Err(e) => Err(e),
                            Ok((directives, next)) => Ok(
                                (
                                    SelectionView::FragmentSpread(
                                        Spanning {
                                            start: tokens[at].start,
                                            end: match directives {
                                                Some(d) => d.end,
                                                None => name.end,
                                            },
                                            item: FragmentSpreadView {
                                                name,
                                                directives: unspanned(directives),
                                            },
                                        },
                                    ),
                                    next,
                                ),
                            ),
                        },
                    }
                }
            },
            TokenView::CurlyOpen => spec_inline_fragment(tokens, at, at1, None),
            TokenView::At => spec_inline_fragment(tokens, at, at1, None),
            _ => Err(unexpected_at(tokens, at1)),
        },
    }
}

/// A field: a name; before it, an alias and a colon if a colon follows the
/// first name; after it arguments, directives and a selection set, as far
/// as there are any. The field spans from its first name to the end of its
/// last part.
pub open spec fn spec_field(tokens: Tokens, at: int) -> Parsed<Spanning<FieldView>>
    decreases tokens.len() - at, 3int,
    when 0 <= at < tokens.len()
{
    match spec_expect_name(tokens, at) {
        Err(e) => Err(e),
        Ok((first, at1)) => match spec_skip(tokens, at1, TokenView::Colon) {
            Err(e) => Err(e),
            Ok((colon, at2)) => match (
                if colon is Some {
                    spec_expect_name(tokens, at2)
                } else {
                    Ok((first, at2))
                }
            ) {
                Err(e) => Err(e),
                Ok((name, at3)) => match spec_arguments(tokens, at3) {
                    Err(e) => Err(e),
                    Ok((arguments, at4)) => match spec_directives(tokens, at4) {
                        Err(e) => Err(e),
                        Ok((directives, at5)) => match (
                            if tokens[at5].item is CurlyOpen {
                                match spec_selection_set_after(tokens, at, at5) {
                                    Err(e) => Err(e),
                                    Ok((set, next)) => Ok((Some(set), next)),
                                }
                            } else {
                                Ok((None, at5))
                            }
                        ) {
                            Err(e) => Err(e),
                            Ok((set, next)) => Ok(
                                (
                                    Spanning {
                                        start: first.start,
                                        end: match (set, directives, arguments) {
                                            (Some(s), _, _) => s.end,
                                            (None, Some(d), _) => d.end,
                                            (None, None, Some(a)) => a.end,
                                            (None, None, None) => name.end,
                                        },
                                        item: FieldView {
                                            alias: if colon is Some {
                                                Some(first)
                                            } else {
                                                None
                                            },
                                            name,
                                            arguments,
                                            directives: unspanned(directives),
                                            selection_set: unspanned(set),
                                        },
                                    },
                                    next,
                                ),
                            ),
                        },
                    },
                },
            },
        },
    }
}

/// The kind of an operation: the name `query` or the name `mutation`.
pub open spec fn spec_operation_type(tokens: Tokens, at: int) -> Parsed<OperationType> {
    if tokens[at].item == keyword("query") {
        match spec_next(tokens, at) {
            Err(e) => Err(e),
            Ok((_, next)) => Ok((OperationType::Query, next)),
        }
    } else if tokens[at].item == keyword("mutation") {
        match spec_next(tokens, at) {
            Err(e) => Err(e),
            Ok((_, next)) => Ok((OperationType::Mutation, next)),
        }
    } else {
        Err(unexpected_at(tokens, at))
    }
}

/// An operation. A selection set alone is a query without a name,
/// variables or directives. Otherwise the kind of the operation comes
/// first, then a name, variable definitions and directives, as far as
/// there are any, and the selection set.
pub open spec fn spec_operation(tokens: Tokens, at: int) -> Parsed<Spanning<OperationView>> {
    if tokens[at].item is CurlyOpen {
        match spec_selection_set(tokens, at) {
            Err(e) => Err(e),
            Ok((set, next)) => Ok(
                (
                    Spanning {
                        start: set.start,
                        end: set.end,
                        item: OperationView {
                            operation_type: OperationType::Query,
                            name: None,
                            variable_definitions: None,
                            directives: None,
                            selection_set: set.item,
                        },
                    },
                    next,
                ),
            ),
        }
    } else {
        match spec_operation_type(tokens, at) {
            Err(e) => Err(e),
            Ok((operation_type, at1)) => match (
                if tokens[at1].item is Name {
                    match spec_expect_name(tokens, at1) {
                        Err(e) => Err(e),
                        Ok((name, at2)) => Ok((Some(name), at2)),
                    }
                } else {
                    Ok((None, at1))
                }
            ) {
                Err(e) => Err(e),
                Ok((name, at2)) => match spec_variable_definitions(tokens, at2) {
                    Err(e) => Err(e),
                    Ok((variable_definitions, at3)) => match spec_directives(tokens, at3) {
                        Err(e) => Err(e),
                        Ok((directives, at4)) => match spec_selection_set(tokens, at4) {
                            Err(e) => Err(e),
                            Ok((set, next)) => Ok(
                                (
                                    Spanning {
                                        start: tokens[at].start,
                                        end: set.end,
                                        item: OperationView {
                                            operation_type,
                                            name,
                                            variable_definitions,
                                            directives: unspanned(directives),
                                            selection_set: set.item,
                                        },
                                    },
                                    next,
                                ),
                            ),
                        },
                    },
                },
            },
        }
    }
}

/// A fragment: the name `fragment`, the fragment's name, which may not be
/// `on`, the name `on`, the name of a type, directives if there are any,
/// and a selection set.
pub open spec fn spec_fragment(tokens: Tokens, at: int) -> Parsed<Spanning<FragmentView>> {
    match spec_expect(tokens, at, keyword("fragment")) {
        Err(e) => Err(e),
        Ok((word, at1)) => match spec_expect_name(tokens, at1) {
            Err(e) => Err(e),
            Ok((name, at2)) => {
                if name.item == "on"@ {
                    Err(
                        Spanning {
                            start: name.start,
                            end: name.end,
                            item: ParseErrorView::UnexpectedToken(keyword("on")),
                        },
                    )
                } else {
                    match spec_expect(tokens, at2, keyword("on")) {
                        Err(e) => Err(e),
                        Ok((_, at3)) => match spec_expect_name(tokens, at3) {
                            Err(e) => Err(e),
                            Ok((type_condition, at4)) => match spec_directives(tokens, at4) {
                                Err(e) => Err(e),
                                Ok((directives, at5)) => match spec_selection_set(tokens, at5) {
                                    Err(e) => Err(e),
                                    Ok((set, next)) => Ok(
                                        (
                                            Spanning {
                                                start: word.start,
                                                end: set.end,
                                                item: FragmentView {
                                                    name,
                                                    type_condition,
                                                    directives: unspanned(directives),
                                                    selection_set: set.item,
                                                },
                                            },
                                            next,
                                        ),
                                    ),
                                },
                            },
                        },
                    }
                }
            },
        },
    }
}

/// A definition: an operation where an opening brace or one of the names
/// `query` and `mutation` stands, a fragment where the name `fragment`
/// stands.
pub open spec fn spec_definition(tokens: Tokens, at: int) -> Parsed<DefinitionView> {
    if tokens[at].item is CurlyOpen || tokens[at].item == keyword("query") || tokens[at].item
        == keyword("mutation") {
        match spec_operation(tokens, at) {
            Err(e) => Err(e),
            Ok((operation, next)) => Ok((DefinitionView::Operation(operation), next)),
        }
    } else if tokens[at].item == keyword("fragment") {
        match spec_fragment(tokens, at) {
            Err(e) => Err(e),
            Ok((fragment, next)) => Ok((DefinitionView::Fragment(fragment), next)),
        }
    } else {
        Err(unexpected_at(tokens, at))
    }
}

/// The rest of a document from the token with index `at` on, where `read`
/// are the definitions before it. A definition stands at `at`, and the
/// document ends where the token after a definition is `EndOfFile`.
pub open spec fn spec_definitions(tokens: Tokens, at: int, read: Seq<DefinitionView>) -> Parsed<
    Seq<DefinitionView>,
>
    decreases tokens.len() - at,
    when 0 <= at < tokens.len()
{
    match spec_definition(tokens, at) {
        Err(e) => Err(e),
        Ok((definition, next)) => {
            if at < next < tokens.len() && !(tokens[next].item is EndOfFile) {
                spec_definitions(tokens, next, read.push(definition))
            } else {
                Ok((read.push(definition), next))
            }
        },
    }
}

/// A document: one or more definitions, up to the end of the text.
pub open spec fn spec_document(tokens: Tokens) -> Result<
    Seq<DefinitionView>,
    Spanning<ParseErrorView>,
> {
    match spec_definitions(tokens, 0, Seq::empty()) {
        Err(e) => Err(e),
        Ok((definitions, _)) => Ok(definitions),
    }
}

} // verus!
