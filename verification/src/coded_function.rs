//! Functions compiled to bytecode.

use crate::bytecode::{Bytecode, InstructionView};
use crate::pattern::{MultiPattern, PatternView};
use vstd::prelude::*;

verus! {

/// One alternative of a function: the patterns its arguments must match, and
/// the code to run when they do.
#[derive(Debug)]
pub struct CodedFunctionVariant {
    pub patterns: MultiPattern,
    pub body: Bytecode,
}

/// The mathematical content of a [`CodedFunctionVariant`].
pub struct VariantView {
    pub patterns: Seq<PatternView>,
    pub body: Seq<InstructionView>,
}

impl View for CodedFunctionVariant {
    type V = VariantView;

    open spec fn view(&self) -> VariantView {
        VariantView { patterns: self.patterns@, body: self.body@ }
    }
}

impl Clone for CodedFunctionVariant {
    fn clone(&self) -> (r: Self)
        ensures
            r@ == self@,
    {
        CodedFunctionVariant { patterns: self.patterns.clone(), body: self.body.clone() }
    }
}

/// A function as the machine runs it: a name for diagnostics and the
/// alternatives in the order in which they are tried.
#[derive(Debug)]
pub struct CodedFunction {
    pub name: String,
    pub variants: Vec<CodedFunctionVariant>,
}

/// The mathematical content of a [`CodedFunction`].
pub struct CodedFunctionView {
    pub name: Seq<char>,
    pub variants: Seq<VariantView>,
}

impl View for CodedFunction {
    type V = CodedFunctionView;

    open spec fn view(&self) -> CodedFunctionView {
        CodedFunctionView {
            name: self.name@,
            variants: self.variants@.map_values(|v: CodedFunctionVariant| v@),
        }
    }
}

impl Clone for CodedFunction {
    fn clone(&self) -> (r: Self)
        ensures
            r@ == self@,
    {
        let variants = self.variants.clone();
        assert(variants@.map_values(|v: CodedFunctionVariant| v@) =~= self.variants@.map_values(
            |v: CodedFunctionVariant| v@,
        ));
        CodedFunction { name: self.name.clone(), variants }
    }
}

impl CodedFunctionView {
    /// Whether some alternative takes no argument at all.
    pub open spec fn is_trampoline_callable(self) -> bool {
        exists|i: int| 0 <= i < self.variants.len() && (#[trigger] self.variants[i]).patterns.len() == 0
    }
}

impl CodedFunction {
    /// Whether the function can be called with no argument: whether one of
    /// its alternatives has no pattern.
    pub fn is_trampoline_callable(&self) -> (r: bool)
        ensures
            r == self@.is_trampoline_callable(),
    {
        let mut i: usize = 0;
        while i < self.variants.len()
            invariant
                i <= self.variants.len(),
                forall|j: int| 0 <= j < i ==> (#[trigger] self@.variants[j]).patterns.len() != 0,
            decreases self.variants.len() - i,
        {
            if self.variants[i].patterns.0.len() == 0 {
                assert(self@.variants[i as int].patterns.len() == 0);
                return true;
            }
            i += 1;
        }
        false
    }
}

} // verus!
