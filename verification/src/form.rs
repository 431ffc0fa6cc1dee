//! The rules for a request that arrives as the fields of a form: which
//! fields count, that none of them may come twice, and that the query must
//! be there.

use vstd::prelude::*;

verus! {

/// A field of a form that belongs to a request.
#[derive(Clone, Copy, Debug, PartialEq, Eq, Hash)]
pub enum FormField {
    Query,
    OperationName,
    Variables,
}

/// Which fields of a request have been seen among the fields of a form.
#[derive(Clone, Copy, Debug, PartialEq, Eq, Hash)]
pub struct FormFields {
    pub query: bool,
    pub operation_name: bool,
    pub variables: bool,
}

/// The field of a request that a form field with the name `key` is, if it
/// is one.
pub open spec fn field_named(key: Seq<char>) -> Option<FormField> {
    if key == "query"@ {
        Some(FormField::Query)
    } else if key == "operation_name"@ {
        Some(FormField::OperationName)
    } else if key == "variables"@ {
        Some(FormField::Variables)
    } else {
        None
    }
}

/// What is said of a field that comes a second time.
pub open spec fn repeated_message(field: FormField) -> Seq<char> {
    match field {
        FormField::Query => "Query parameter must not occur more than once"@,
        FormField::OperationName => "Operation name parameter must not occur more than once"@,
        FormField::Variables => "Variables parameter must not occur more than once"@,
    }
}

/// What is said of a form without a query.
pub open spec fn missing_message() -> Seq<char> {
    "Query parameter missing"@
}

impl FormFields {
    /// Whether `field` has been seen.
    pub open spec fn seen(self, field: FormField) -> bool {
        match field {
            FormField::Query => self.query,
            FormField::OperationName => self.operation_name,
            FormField::Variables => self.variables,
        }
    }

    /// The same fields, and `field` too.
    pub open spec fn with(self, field: FormField) -> FormFields {
        match field {
            FormField::Query => FormFields { query: true, ..self },
            FormField::OperationName => FormFields { operation_name: true, ..self },
            FormField::Variables => FormFields { variables: true, ..self },
        }
    }

    /// No field seen yet.
    pub fn new() -> (f: FormFields)
        ensures
            f == (FormFields { query: false, operation_name: false, variables: false }),
    {
        FormFields { query: false, operation_name: false, variables: false }
    }

    /// Takes note of a form field with the name `key`.
    ///
    /// A name that belongs to no field of a request changes nothing and
    /// yields nothing. A field that was seen before is refused with a
    /// message. Any other is marked as seen and handed back, for its value
    /// to be read.
    pub fn accept(&mut self, key: &str) -> (r: Result<Option<FormField>, String>)
        ensures
            match field_named(key@) {
                None => r == Ok::<Option<FormField>, String>(None) && *final(self) == *old(self),
                Some(field) => {
                    if old(self).seen(field) {
                        &&& r matches Err(message)
                        &&& message@ == repeated_message(field)
                        &&& *final(self) == *old(self)
                    } else {
                        &&& r == Ok::<Option<FormField>, String>(Some(field))
                        &&& *final(self) == old(self).with(field)
                    }
                },
            },
    {
        if key.eq("query") {
            if self.query {
                Err("Query parameter must not occur more than once".to_string())
            } else {
                self.query = true;
                Ok(Some(FormField::Query))
            }
        } else if key.eq("operation_name") {
            if self.operation_name {
                Err("Operation name parameter must not occur more than once".to_string())
            } else {
                self.operation_name = true;
                Ok(Some(FormField::OperationName))
            }
        } else if key.eq("variables") {
            if self.variables {
                Err("Variables parameter must not occur more than once".to_string())
            } else {
                self.variables = true;
                Ok(Some(FormField::Variables))
            }
        } else {
            Ok(None)
        }
    }

    /// Whether the form can be a request, once all its fields have been
    /// taken note of: the query must have been seen.
    pub fn finish(&self) -> (r: Result<(), String>)
        ensures
            self.query ==> r is Ok,
            !self.query ==> (r matches Err(message) && message@ == missing_message()),
    {
        if self.query {
            Ok(())
        } else {
            Err("Query parameter missing".to_string())
        }
    }
}

/// The status that answers a request: 200 where it was executed, 400
/// where it was not.
pub fn response_status(executed: bool) -> (status: u16)
    ensures
        status == (if executed { 200u16 } else { 400u16 }),
{
    if executed {
        200
    } else {
        400
    }
}

} // verus!
