//! Host routines that a program can call.

use crate::bindings::Bindings;
use crate::bitstring::{big_endian, bits_of_u64, BitString};
use crate::callable::{Callable, CallableView};
use crate::value::{values_view, Value, ValueView};
use crate::vm::{ExecError, ExecErrorView};
use vstd::prelude::*;

verus! {

/// What the host provides for a native function: a routine from an argument
/// list to a value or an error. It runs to its end inside the step that calls
/// it. Nothing is known of what it returns.
pub trait NativeOperation: Copy {
    fn call(&self, args: Vec<Value<Self>>) -> Result<Value<Self>, ExecError<Self>>;
}

/// A host routine under the name by which diagnostics know it.
#[derive(Debug)]
pub struct NativeFunction<N> {
    pub func: N,
    pub name: String,
}

/// The mathematical content of a [`NativeFunction`].
pub struct NativeFunctionView<N> {
    pub func: N,
    pub name: Seq<char>,
}

impl<N> View for NativeFunction<N> {
    type V = NativeFunctionView<N>;

    open spec fn view(&self) -> NativeFunctionView<N> {
        NativeFunctionView { func: self.func, name: self.name@ }
    }
}

impl<N: Copy> Clone for NativeFunction<N> {
    fn clone(&self) -> (r: Self)
        ensures
            r@ == self@,
    {
        NativeFunction { func: self.func, name: self.name.clone() }
    }
}

/// The name of the host routine that allocates.
pub open spec fn alloc_name() -> Seq<char> {
    seq!['$']
}

/// The name of the host routine that prints its arguments.
pub open spec fn debug_name() -> Seq<char> {
    seq!['?', '!']
}

/// The value that a host routine is under its name.
pub open spec fn native_value<N>(func: N, name: Seq<char>) -> ValueView<N> {
    ValueView::Callable(CallableView::Native(NativeFunctionView { func, name }))
}

/// The environment of the host routines that every program can call: the
/// one that allocates under `$`, the one that prints under `?!`.
pub fn make_bindings<N>(alloc: N, debug: N) -> (r: Bindings<N>)
    ensures
        r@ == Map::<Seq<char>, ValueView<N>>::empty().insert(
            alloc_name(),
            native_value(alloc, alloc_name()),
        ).insert(debug_name(), native_value(debug, debug_name())),
{
    proof {
        reveal_strlit("$");
        reveal_strlit("?!");
    }
    let alloc_text = "$".to_owned();
    let debug_text = "?!".to_owned();
    assert(alloc_text@ =~= alloc_name());
    assert(debug_text@ =~= debug_name());
    let mut bindings: Bindings<N> = Bindings::empty();
    bindings.add(
        alloc_text.clone(),
        Value::Callable(Callable::Native(NativeFunction { func: alloc, name: alloc_text })),
    );
    bindings.add(
        debug_text.clone(),
        Value::Callable(Callable::Native(NativeFunction { func: debug, name: debug_text })),
    );
    bindings
}

/// How many bytes the arguments ask the allocating routine for: the number
/// that the one argument, a bit string, spells, as far as a `usize` holds it.
/// Nothing for any other argument list.
pub open spec fn alloc_size<N>(args: Seq<ValueView<N>>) -> Option<nat> {
    if args.len() == 1 {
        match args[0] {
            ValueView::BitString(bits) => Some(big_endian(bits) % (usize::MAX as nat + 1)),
            ValueView::Callable(_) => None,
        }
    } else {
        None
    }
}

/// What the allocating routine is asked for: the number of bytes, or the
/// error that no alternative of `$` fits the arguments.
pub fn alloc_request<N>(args: Vec<Value<N>>) -> (r: Result<usize, ExecError<N>>)
    ensures
        match alloc_size(values_view(args@)) {
            Some(size) => r matches Ok(n) && n == size,
            None => r matches Err(e) && e@ == (ExecErrorView::NoMatch {
                func_name: alloc_name(),
                args: values_view(args@),
            }),
        },
{
    proof {
        reveal_strlit("$");
    }
    if args.len() == 1 {
        assert(values_view(args@)[0] == args[0]@);
        match &args[0] {
            Value::BitString(bit_string) => {
                return Ok(bit_string.as_usize());
            },
            Value::Callable(_) => {},
        }
    }
    let func_name = "$".to_owned();
    assert(func_name@ =~= alloc_name());
    Err(ExecError::NoMatch { func_name, args })
}

/// What the allocating routine hands back: the address in 64 bits.
pub fn alloc_reply<N>(address: u64) -> (r: Value<N>)
    ensures
        r@ == ValueView::<N>::BitString(bits_of_u64(address)),
{
    Value::BitString(BitString::from_u64(address))
}

} // verus!
