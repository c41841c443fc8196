//! The two sorts of thing that can be called: compiled functions and host routines.

use crate::coded_function::{CodedFunction, CodedFunctionView};
use crate::native_function::{NativeFunction, NativeFunctionView};
use vstd::prelude::*;

verus! {

/// Something that can be called with a list of arguments.
#[derive(Debug)]
pub enum Callable<N> {
    Coded(CodedFunction),
    Native(NativeFunction<N>),
}

/// The mathematical content of a [`Callable`].
pub enum CallableView<N> {
    Coded(CodedFunctionView),
    Native(NativeFunctionView<N>),
}

impl<N> View for Callable<N> {
    type V = CallableView<N>;

    open spec fn view(&self) -> CallableView<N> {
        match self {
            Callable::Coded(f) => CallableView::Coded(f@),
            Callable::Native(f) => CallableView::Native(f@),
        }
    }
}

impl<N: Copy> Clone for Callable<N> {
    fn clone(&self) -> (r: Self)
        ensures
            r@ == self@,
    {
        match self {
            Callable::Coded(f) => Callable::Coded(f.clone()),
            Callable::Native(f) => Callable::Native(f.clone()),
        }
    }
}

impl<N> From<CodedFunction> for Callable<N> {
    fn from(func: CodedFunction) -> (r: Callable<N>) {
        Callable::Coded(func)
    }
}

impl<N> vstd::std_specs::convert::FromSpecImpl<CodedFunction> for Callable<N> {
    open spec fn obeys_from_spec() -> bool {
        true
    }

    open spec fn from_spec(func: CodedFunction) -> Callable<N> {
        Callable::Coded(func)
    }
}

} // verus!
