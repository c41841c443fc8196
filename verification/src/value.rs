//! What a program computes with: a bit string, or something that can be called.

use crate::bitstring::{Bit, BitString};
use crate::callable::{Callable, CallableView};
use vstd::prelude::*;

verus! {

/// A value of the machine.
#[derive(Debug)]
pub enum Value<N> {
    BitString(BitString),
    Callable(Callable<N>),
}

/// The mathematical content of a [`Value`].
pub enum ValueView<N> {
    BitString(Seq<Bit>),
    Callable(CallableView<N>),
}

impl<N> View for Value<N> {
    type V = ValueView<N>;

    open spec fn view(&self) -> ValueView<N> {
        match self {
            Value::BitString(s) => ValueView::BitString(s@),
            Value::Callable(c) => ValueView::Callable(c@),
        }
    }
}

impl<N: Copy> Clone for Value<N> {
    fn clone(&self) -> (r: Self)
        ensures
            r@ == self@,
    {
        match self {
            Value::BitString(s) => Value::BitString(s.clone()),
            Value::Callable(c) => Value::Callable(c.clone()),
        }
    }
}

/// The contents of a list of values, one by one.
pub open spec fn values_view<N>(values: Seq<Value<N>>) -> Seq<ValueView<N>> {
    values.map_values(|v: Value<N>| v@)
}

impl<N> Value<N> {
    /// The bit string that the value is; nothing for a callable.
    pub fn into_bit_string(self) -> (r: Option<BitString>)
        ensures
            match self@ {
                ValueView::BitString(bits) => r matches Some(s) && s@ == bits,
                ValueView::Callable(_) => r is None,
            },
    {
        match self {
            Value::BitString(s) => Some(s),
            _ => None,
        }
    }

    /// The callable that the value is; nothing for a bit string.
    pub fn into_callable(self) -> (r: Option<Callable<N>>)
        ensures
            match self@ {
                ValueView::Callable(c) => r matches Some(f) && f@ == c,
                ValueView::BitString(_) => r is None,
            },
    {
        match self {
            Value::Callable(c) => Some(c),
            _ => None,
        }
    }
}

impl<N> From<BitString> for Value<N> {
    fn from(s: BitString) -> (r: Value<N>) {
        Value::BitString(s)
    }
}

impl<N> vstd::std_specs::convert::FromSpecImpl<BitString> for Value<N> {
    open spec fn obeys_from_spec() -> bool {
        true
    }

    open spec fn from_spec(s: BitString) -> Value<N> {
        Value::BitString(s)
    }
}

impl<N> From<Callable<N>> for Value<N> {
    fn from(c: Callable<N>) -> (r: Value<N>) {
        Value::Callable(c)
    }
}

impl<N> vstd::std_specs::convert::FromSpecImpl<Callable<N>> for Value<N> {
    open spec fn obeys_from_spec() -> bool {
        true
    }

    open spec fn from_spec(c: Callable<N>) -> Value<N> {
        Value::Callable(c)
    }
}

} // verus!
