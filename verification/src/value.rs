//! The values that a statement can bind to its placeholders.

use vstd::prelude::*;

verus! {

/// A value bound to one placeholder of a statement. Text, numbers, truth
/// values and the absent value can stand side by side in one list of
/// parameters.
#[derive(Debug)]
pub enum Value {
    /// The absent value.
    Null,
    /// A truth value.
    Boolean(bool),
    /// A whole number.
    Integer(i64),
    /// A piece of text.
    Text(String),
}

/// What a [`Value`] stands for, with text as a sequence of characters.
pub enum ValueView {
    /// The absent value.
    Null,
    /// A truth value.
    Boolean(bool),
    /// A whole number.
    Integer(i64),
    /// A piece of text, as its characters.
    Text(Seq<char>),
}

impl View for Value {
    type V = ValueView;

    open spec fn view(&self) -> ValueView {
        match self {
            Value::Null => ValueView::Null,
            Value::Boolean(b) => ValueView::Boolean(*b),
            Value::Integer(i) => ValueView::Integer(*i),
            Value::Text(t) => ValueView::Text(t@),
        }
    }
}

impl Value {
    /// Whether this is the absent value.
    pub fn is_null(&self) -> (null: bool)
        ensures
            null == (self@ is Null),
    {
        match self {
            Value::Null => true,
            _ => false,
        }
    }

    /// The truth value, if this is one.
    pub fn as_boolean(&self) -> (truth: Option<bool>)
        ensures
            (match self@ {
                ValueView::Boolean(b) => truth == Some(b),
                _ => truth is None,
            }),
    {
        match self {
            Value::Boolean(b) => Some(*b),
            _ => None,
        }
    }

    /// The number, if this is one.
    pub fn as_integer(&self) -> (number: Option<i64>)
        ensures
            (match self@ {
                ValueView::Integer(i) => number == Some(i),
                _ => number is None,
            }),
    {
        match self {
            Value::Integer(i) => Some(*i),
            _ => None,
        }
    }

    /// The text, if this is a piece of text.
    pub fn as_text(&self) -> (text: Option<&str>)
        ensures
            (match self@ {
                ValueView::Text(t) => text matches Some(s) && s@ == t,
                _ => text is None,
            }),
    {
        match self {
            Value::Text(t) => Some(t.as_str()),
            _ => None,
        }
    }
}

impl Clone for Value {
    /// The copy is the same value as `self`.
    fn clone(&self) -> (copy: Value)
        ensures
            copy == *self,
    {
        match self {
            Value::Null => Value::Null,
            Value::Boolean(b) => Value::Boolean(*b),
            Value::Integer(i) => Value::Integer(*i),
            Value::Text(t) => Value::Text(t.clone()),
        }
    }
}

impl PartialEq for Value {
    /// Two values are equal when they are the same variant and hold the same.
    fn eq(&self, other: &Value) -> (same: bool) {
        match (self, other) {
            (Value::Null, Value::Null) => true,
            (Value::Boolean(a), Value::Boolean(b)) => *a == *b,
            (Value::Integer(a), Value::Integer(b)) => *a == *b,
            (Value::Text(a), Value::Text(b)) => *a == *b,
            _ => false,
        }
    }
}

impl vstd::std_specs::cmp::PartialEqSpecImpl for Value {
    open spec fn obeys_eq_spec() -> bool {
        true
    }

    open spec fn eq_spec(&self, other: &Value) -> bool {
        self@ == other@
    }
}

} // verus!
