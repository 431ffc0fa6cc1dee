use juniper::ast::InputValue;
use juniper::form::{response_status, FormField, FormFields};
use juniper::pointers::{FromInputValue, ToInputValue};

#[test]
fn form_fields_are_taken_note_of() {
    let mut seen = FormFields::new();
    assert_eq!(seen, FormFields { query: false, operation_name: false, variables: false });
    assert_eq!(seen.accept("other"), Ok(None));
    assert_eq!(seen.accept("Query"), Ok(None));
    assert_eq!(seen.accept("operationName"), Ok(None));
    assert_eq!(seen, FormFields::new());
    assert_eq!(seen.accept("variables"), Ok(Some(FormField::Variables)));
    assert_eq!(seen, FormFields { query: false, operation_name: false, variables: true });
    assert_eq!(seen.accept("query"), Ok(Some(FormField::Query)));
    assert_eq!(seen.accept("operation_name"), Ok(Some(FormField::OperationName)));
    assert_eq!(seen, FormFields { query: true, operation_name: true, variables: true });
    assert_eq!(seen.finish(), Ok(()));
}

#[test]
fn form_field_may_not_come_twice() {
    let mut seen = FormFields::new();
    assert_eq!(seen.accept("query"), Ok(Some(FormField::Query)));
    assert_eq!(
        seen.accept("query"),
        Err("Query parameter must not occur more than once".to_string())
    );
    assert_eq!(seen.accept("operation_name"), Ok(Some(FormField::OperationName)));
    assert_eq!(
        seen.accept("operation_name"),
        Err("Operation name parameter must not occur more than once".to_string())
    );
    assert_eq!(seen.accept("variables"), Ok(Some(FormField::Variables)));
    assert_eq!(
        seen.accept("variables"),
        Err("Variables parameter must not occur more than once".to_string())
    );
    assert_eq!(seen, FormFields { query: true, operation_name: true, variables: true });
}

#[test]
fn form_without_query_is_no_request() {
    let mut seen = FormFields::new();
    assert_eq!(seen.finish(), Err("Query parameter missing".to_string()));
    assert_eq!(seen.accept("variables"), Ok(Some(FormField::Variables)));
    assert_eq!(seen.accept("operation_name"), Ok(Some(FormField::OperationName)));
    assert_eq!(seen.finish(), Err("Query parameter missing".to_string()));
    assert_eq!(seen.accept("query"), Ok(Some(FormField::Query)));
    assert_eq!(seen.finish(), Ok(()));
}

#[test]
fn status_of_a_response() {
    assert_eq!(response_status(true), 200);
    assert_eq!(response_status(false), 400);
}

#[derive(Debug, PartialEq)]
struct Count(i64);

impl FromInputValue for Count {
    fn from_input_value(v: &InputValue) -> Option<Count> {
        match v {
            InputValue::Int(i) => Some(Count(*i)),
            _ => None,
        }
    }
}

impl ToInputValue for Count {
    fn to(&self) -> InputValue {
        InputValue::Int(self.0)
    }
}

#[test]
fn boxed_value_is_read_as_the_value_is() {
    assert_eq!(
        <Box<Count> as FromInputValue>::from_input_value(&InputValue::Int(7)),
        Some(Box::new(Count(7)))
    );
    assert_eq!(<Box<Count> as FromInputValue>::from_input_value(&InputValue::Null), None);
    assert_eq!(
        <Box<Box<Count>> as FromInputValue>::from_input_value(&InputValue::Int(-1)),
        Some(Box::new(Box::new(Count(-1))))
    );
}

#[test]
fn value_behind_a_pointer_is_written_as_the_value_is() {
    let count = Count(12);
    assert_eq!(Box::new(Count(12)).to(), InputValue::Int(12));
    assert_eq!((&count).to(), InputValue::Int(12));
    assert_eq!((&&count).to(), InputValue::Int(12));
    assert_eq!(ToInputValue::to(&Box::new(&count)), count.to());
}
