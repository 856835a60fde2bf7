use vstd::prelude::*;
use crate::check::{InputCheckResult, invalid_here, missing_here};

verus! {

/// A field of a partial document: provided, a template placeholder waiting
/// for a substitution, a raw value that did not fit the field, or absent.
#[derive(Clone, Debug)]
pub enum Value<T> {
    Normal(T),
    Template(String),
    Invalid(String),
    Absent,
}

/// The mathematical counterpart of `Value`.
pub enum ValueModel<M> {
    Normal(M),
    Template(Seq<char>),
    Invalid(Seq<char>),
    Absent,
}

impl<T> Value<T> {
    pub fn provided(t: T) -> (r: Value<T>)
        ensures
            r == Value::Normal(t),
    {
        Value::Normal(t)
    }

    pub fn is_absent(&self) -> (r: bool)
        ensures
            r == (*self is Absent),
    {
        match self {
            Value::Absent => true,
            _ => false,
        }
    }

    pub fn is_provided(&self) -> (r: bool)
        ensures
            r == (*self is Normal),
    {
        match self {
            Value::Normal(_) => true,
            _ => false,
        }
    }

    /// The provided content, or the diagnostic for this place: a missing
    /// value (named by its placeholder for a template) or an invalid one.
    pub fn resolve(self) -> (r: Result<T, InputCheckResult>)
        ensures
            self is Normal <==> r is Ok,
            r matches Ok(t) ==> t == self->Normal_0,
            self matches Value::Absent ==> r matches Err(c) && c@ == missing_here(None),
            self matches Value::Template(k) ==> r matches Err(c) && c@ == missing_here(Some(k@)),
            self matches Value::Invalid(raw) ==> r matches Err(c) && c@ == invalid_here(raw@, None),
    {
        match self {
            Value::Normal(t) => Ok(t),
            Value::Template(k) => Err(InputCheckResult::from_missing(Some(k))),
            Value::Invalid(raw) => Err(InputCheckResult::from_invalid(raw, None)),
            Value::Absent => Err(InputCheckResult::from_missing(None)),
        }
    }

    /// The provided content, or `default` for any other state.
    pub fn unwrap_or(self, default: T) -> (r: T)
        ensures
            self is Normal ==> r == self->Normal_0,
            !(self is Normal) ==> r == default,
    {
        match self {
            Value::Normal(t) => t,
            _ => default,
        }
    }
}

/// A value that may be explicitly switched off.
#[derive(Clone, Debug)]
pub enum Noneable<T> {
    Nothing,
    NotNone(T),
}

/// A number given either literally or as the name of a question variable.
#[derive(Clone, Debug)]
pub enum VariableValued<T> {
    Variable(String),
    Value(T),
}

} // verus!
