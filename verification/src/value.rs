//! The tri-state value model.
//!
//! Every declared field is `Known` (a concrete value), `Null` (explicitly
//! absent) or `Unknown` (to be produced during apply, not yet known).
//! `Null` and `Unknown` are never conflated: planning treats an absent field
//! as a degenerate value to be defaulted, while an unknown field forces work
//! during apply.

use vstd::prelude::*;

verus! {

/// A tri-state value: known, explicitly absent, or not yet computed.
#[derive(Debug, Clone)]
pub enum Value<T> {
    Known(T),
    Null,
    Unknown,
}

impl<T> Value<T> {
    pub open spec fn is_known(&self) -> bool {
        self is Known
    }

    pub open spec fn is_null(&self) -> bool {
        self is Null
    }

    pub open spec fn is_unknown(&self) -> bool {
        self is Unknown
    }

    /// Executable test for `Known`.
    pub fn known(&self) -> (r: bool)
        ensures
            r == self.is_known(),
    {
        match self {
            Value::Known(_) => true,
            _ => false,
        }
    }

    /// Executable test for `Null`.
    pub fn null(&self) -> (r: bool)
        ensures
            r == self.is_null(),
    {
        match self {
            Value::Null => true,
            _ => false,
        }
    }

    /// Executable test for `Unknown`.
    pub fn unknown(&self) -> (r: bool)
        ensures
            r == self.is_unknown(),
    {
        match self {
            Value::Unknown => true,
            _ => false,
        }
    }

    /// Take the value out, leaving `Unknown` behind.
    pub fn take(&mut self) -> (r: Self)
        ensures
            r == *old(self),
            *final(self) is Unknown,
    {
        let mut tmp = Value::Unknown;
        core::mem::swap(self, &mut tmp);
        tmp
    }

    /// Borrow the payload if it is known.
    pub fn as_option(&self) -> (r: Option<&T>)
        ensures
            match r {
                Some(t) => self is Known && t == &self->Known_0,
                None => !(self is Known),
            },
    {
        match self {
            Value::Known(t) => Some(t),
            _ => None,
        }
    }
}

impl<T: View> View for Value<T> {
    type V = Value<T::V>;

    open spec fn view(&self) -> Value<T::V> {
        match self {
            Value::Known(t) => Value::Known(t@),
            Value::Null => Value::Null,
            Value::Unknown => Value::Unknown,
        }
    }
}

impl Value<String> {
    /// A copy with the same state and content.
    pub fn dup(&self) -> (r: Self)
        ensures
            r@ == self@,
    {
        match self {
            Value::Known(s) => Value::Known(s.clone()),
            Value::Null => Value::Null,
            Value::Unknown => Value::Unknown,
        }
    }

    /// Compare two tri-state strings for equality of state and content.
    pub fn same(&self, other: &Value<String>) -> (r: bool)
        ensures
            r == (self@ == other@),
    {
        match (self, other) {
            (Value::Known(a), Value::Known(b)) => *a == *b,
            (Value::Null, Value::Null) => true,
            (Value::Unknown, Value::Unknown) => true,
            _ => false,
        }
    }
}

impl Value<bool> {
    /// A copy with the same state and content.
    pub fn dup(&self) -> (r: Self)
        ensures
            r == *self,
    {
        match self {
            Value::Known(b) => Value::Known(*b),
            Value::Null => Value::Null,
            Value::Unknown => Value::Unknown,
        }
    }
}

impl Value<u64> {
    /// A copy with the same state and content.
    pub fn dup(&self) -> (r: Self)
        ensures
            r == *self,
    {
        match self {
            Value::Known(n) => Value::Known(*n),
            Value::Null => Value::Null,
            Value::Unknown => Value::Unknown,
        }
    }
}

} // verus!
