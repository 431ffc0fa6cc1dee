use juniper::ast::{
    Arguments, Definition, Directive, InputValue, OperationType, Selection, Type,
    VariableDefinitions,
};
use juniper::document::parse_document_source;
use juniper::position::Spanning;

fn write_string(out: &mut String, text: &str) {
    out.push('"');
    for c in text.chars() {
        match c {
            '"' => out.push_str("\\\""),
            '\\' => out.push_str("\\\\"),
            c if c < ' ' => out.push_str(&format!("\\u{:04X}", c as u32)),
            c => out.push(c),
        }
    }
    out.push_str("\" ");
}

fn write_value(out: &mut String, v: &InputValue) {
    match v {
        InputValue::Null => out.push_str("null "),
        InputValue::Int(i) => out.push_str(&format!("{} ", i)),
        InputValue::Float(text) => out.push_str(&format!("{} ", text)),
        InputValue::String(text) => write_string(out, text),
        InputValue::Boolean(b) => out.push_str(&format!("{} ", b)),
        InputValue::Enum(name) => out.push_str(&format!("{} ", name)),
        InputValue::Variable(name) => out.push_str(&format!("$ {} ", name)),
        InputValue::List(items) => {
            out.push_str("[ ");
            for item in items {
                write_value(out, &item.item);
            }
            out.push_str("] ");
        }
        InputValue::Object(fields) => {
            out.push_str("{ ");
            for (key, value) in fields {
                out.push_str(&format!("{} : ", key.item));
                write_value(out, &value.item);
            }
            out.push_str("} ");
        }
    }
}

fn write_type(out: &mut String, t: &Type) {
    match t {
        Type::Named(name) => out.push_str(&format!("{} ", name)),
        Type::NonNullNamed(name) => out.push_str(&format!("{} ! ", name)),
        Type::List(inner) => {
            out.push_str("[ ");
            write_type(out, inner);
            out.push_str("] ");
        }
        Type::NonNullList(inner) => {
            out.push_str("[ ");
            write_type(out, inner);
            out.push_str("] ! ");
        }
    }
}

fn write_arguments(out: &mut String, arguments: &Option<Spanning<Arguments>>) {
    if let Some(arguments) = arguments {
        out.push_str("( ");
        for (key, value) in &arguments.item.items {
            out.push_str(&format!("{} : ", key.item));
            write_value(out, &value.item);
        }
        out.push_str(") ");
    }
}

fn write_directives(out: &mut String, directives: &Option<Vec<Spanning<Directive>>>) {
    if let Some(directives) = directives {
        for d in directives {
            out.push_str(&format!("@ {} ", d.item.name.item));
            write_arguments(out, &d.item.arguments);
        }
    }
}

fn write_variables(out: &mut String, definitions: &Option<Spanning<VariableDefinitions>>) {
    if let Some(definitions) = definitions {
        out.push_str("( ");
        for (name, d) in &definitions.item.items {
            out.push_str(&format!("$ {} : ", name.item));
            write_type(out, &d.var_type.item);
            if let Some(v) = &d.default_value {
                out.push_str("= ");
                write_value(out, &v.item);
            }
        }
        out.push_str(") ");
    }
}

fn write_selections(out: &mut String, set: &[Selection]) {
    out.push_str("{ ");
    for s in set {
        match s {
            Selection::Field(f) => {
                if let Some(alias) = &f.item.alias {
                    out.push_str(&format!("{} : ", alias.item));
                }
                out.push_str(&format!("{} ", f.item.name.item));
                write_arguments(out, &f.item.arguments);
                write_directives(out, &f.item.directives);
                if let Some(set) = &f.item.selection_set {
                    write_selections(out, set);
                }
            }
            Selection::FragmentSpread(f) => {
                out.push_str(&format!("... {} ", f.item.name.item));
                write_directives(out, &f.item.directives);
            }
            Selection::InlineFragment(f) => {
                out.push_str("... ");
                if let Some(name) = &f.item.type_condition {
                    out.push_str(&format!("on {} ", name.item));
                }
                write_directives(out, &f.item.directives);
                write_selections(out, &f.item.selection_set);
            }
        }
    }
    out.push_str("} ");
}

fn write_document(document: &[Definition]) -> String {
    let mut out = String::new();
    for d in document {
        match d {
            Definition::Operation(o) => {
                out.push_str(match o.item.operation_type {
                    OperationType::Query => "query ",
                    OperationType::Mutation => "mutation ",
                });
                if let Some(name) = &o.item.name {
                    out.push_str(&format!("{} ", name.item));
                }
                write_variables(&mut out, &o.item.variable_definitions);
                write_directives(&mut out, &o.item.directives);
                write_selections(&mut out, &o.item.selection_set);
            }
            Definition::Fragment(f) => {
                out.push_str(&format!(
                    "fragment {} on {} ",
                    f.item.name.item, f.item.type_condition.item
                ));
                write_directives(&mut out, &f.item.directives);
                write_selections(&mut out, &f.item.selection_set);
            }
        }
    }
    out
}

fn check_round_trip(source: &str) {
    let first = parse_document_source(source).unwrap();
    let written = write_document(&first);
    let second = parse_document_source(&written).unwrap();
    assert_eq!(write_document(&second), written);
    assert_eq!(second.len(), first.len());
    let compact = written.replace(" : ", ":").replace("( ", "(").replace(" )", ")");
    let third = parse_document_source(&compact).unwrap();
    assert_eq!(write_document(&third), written);
}

#[test]
fn written_document_is_read_back() {
    check_round_trip("{ hero { name } }");
    check_round_trip("query H($ep: Episode = NEWHOPE) { h: hero(episode: $ep) { name } }");
    check_round_trip("fragment F on T { a ...G b }");
    check_round_trip("{ ... @include(if: true) { x } }");
    check_round_trip("mutation { a }");
    check_round_trip("query { a } { b } mutation M { c }");
    check_round_trip(
        "query Q($a: [Int!]! = [1, 2], $b: T = {k: \"v\\n\\\"q\\\"\\u00e9\\\\\", l: [E, 1.5e3, null, \
         -7, true, false, [], {}]}, $c: [[A]!]) @d(x: $a, y: {z: [$b]}) @e {\n  a: b(c: {d: \
         [$a, true]}) @f { g ...H @i ... on T @j(k: 1) { l } ... { m } ... @n { o } }\n  on \
         true: null(query: fragment)\n}\nfragment H on on @p { q r: s }",
    );
}

#[test]
fn bare_query_is_written_with_its_kind() {
    let bare = parse_document_source("{ a }").unwrap();
    let named = parse_document_source("query { a }").unwrap();
    assert_eq!(write_document(&bare), "query { a } ");
    assert_eq!(write_document(&bare), write_document(&named));
    assert_ne!(bare, named);
}
