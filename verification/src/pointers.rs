//! Conversions between values of a program and values of a document, and
//! how a value behind a pointer takes part in them: as the value itself
//! does.

use vstd::prelude::*;
use crate::ast::InputValue;

verus! {

/// A type whose values can be read from a value of a document.
pub trait FromInputValue: Sized {
    /// Reads a value of this type from `v`, where `v` is one.
    fn from_input_value(v: &InputValue) -> Option<Self>;
}

/// A type whose values can be written as a value of a document.
pub trait ToInputValue {
    /// Writes the value as a value of a document.
    fn to(&self) -> InputValue;
}

impl<T: FromInputValue> FromInputValue for Box<T> {
    /// Reads a `T` from `v` and puts it in a box; where no `T` is read,
    /// nothing is.
    fn from_input_value(v: &InputValue) -> (r: Option<Box<T>>)
        ensures
            match r {
                Some(boxed) => call_ensures(T::from_input_value, (v,), Some(*boxed)),
                None => call_ensures(T::from_input_value, (v,), None),
            },
    {
        match T::from_input_value(v) {
            Some(v) => Some(Box::new(v)),
            None => None,
        }
    }
}

impl<T: ToInputValue> ToInputValue for Box<T> {
    /// Writes what the value in the box is written as.
    fn to(&self) -> (v: InputValue)
        ensures
            call_ensures(T::to, (&**self,), v),
    {
        (**self).to()
    }
}

impl<'a, T: ToInputValue> ToInputValue for &'a T {
    /// Writes what the value behind the reference is written as.
    fn to(&self) -> (v: InputValue)
        ensures
            call_ensures(T::to, (*self,), v),
    {
        (**self).to()
    }
}

} // verus!
