//! Programs as the compiler takes them.

use crate::bitstring::BitString;
use crate::pattern::MultiPattern;
use vstd::prelude::*;

verus! {

/// An expression.
#[derive(Debug)]
pub enum Expr {
    /// What a name stands for. With `trampoline` set, a function that takes
    /// no argument is called at once and its result taken instead.
    Variable { name: String, trampoline: bool },
    /// A literal bit string.
    Literal(BitString),
    /// A call of `callee` with `args`.
    Call { callee: Box<Expr>, args: Vec<Expr> },
    /// The concatenation of what the children yield.
    Cat { children: Vec<Expr> },
}

/// One alternative of a function: the patterns its arguments must match, and
/// the expression that gives its result when they do.
#[derive(Debug)]
pub struct FunctionVariant {
    pub patterns: MultiPattern,
    pub body: Expr,
}

/// A function: its name and its alternatives in the order of declaration.
#[derive(Debug)]
pub struct Function {
    pub name: String,
    pub variants: Vec<FunctionVariant>,
}

/// The functions of a program, each under its name.
pub type FunctionMap = Vec<Function>;

/// A program: its functions. Where two have one name, the later one stands.
#[derive(Debug)]
pub struct Program {
    pub function_map: FunctionMap,
}

/// The index of the first function of that name; nothing where there is none.
pub open spec fn position_of(functions: Seq<Function>, name: Seq<char>) -> Option<int> {
    if exists|i: int| is_first_named(functions, name, i) {
        Some(choose|i: int| is_first_named(functions, name, i))
    } else {
        None
    }
}

/// Whether the function at `i` is the first of that name.
pub open spec fn is_first_named(functions: Seq<Function>, name: Seq<char>, i: int) -> bool {
    &&& 0 <= i < functions.len()
    &&& functions[i].name@ == name
    &&& forall|j: int| 0 <= j < i ==> (#[trigger] functions[j]).name@ != name
}

impl Program {
    /// The program without a function.
    pub fn new() -> (r: Program)
        ensures
            r.function_map@ == Seq::<Function>::empty(),
    {
        Program { function_map: Vec::new() }
    }

    /// Adds an alternative to the function of that name: behind the
    /// alternatives that the first function of the name has, or, where there
    /// is none, as the only alternative of a new function behind the others.
    pub fn add_variant(&mut self, name: String, variant: FunctionVariant)
        ensures
            ({
                let before = old(self).function_map@;
                let after = final(self).function_map@;
                match position_of(before, name@) {
                    Some(i) => {
                        &&& after.len() == before.len()
                        &&& after[i].name@ == name@
                        &&& after[i].variants@ == before[i].variants@.push(variant)
                        &&& forall|j: int|
                            0 <= j < before.len() && j != i ==> #[trigger] after[j] == before[j]
                    },
                    None => {
                        &&& after.len() == before.len() + 1
                        &&& after.last().name@ == name@
                        &&& after.last().variants@ == seq![variant]
                        &&& forall|j: int| 0 <= j < before.len() ==> #[trigger] after[j] == before[j]
                    },
                }
            }),
    {
        let ghost before = self.function_map@;
        let mut i: usize = 0;
        while i < self.function_map.len()
            invariant
                i <= self.function_map.len(),
                self.function_map@ == before,
                before == old(self).function_map@,
                forall|j: int| 0 <= j < i ==> (#[trigger] before[j]).name@ != name@,
            decreases self.function_map.len() - i,
        {
            if self.function_map[i].name == name {
                proof {
                    assert(is_first_named(before, name@, i as int));
                    let k = choose|k: int| is_first_named(before, name@, k);
                    assert(k == i) by {
                        if k < i {
                            assert(before[k].name@ != name@);
                        } else if i < k {
                            assert(before[i as int].name@ != name@);
                        }
                    }
                }
                let mut function = self.function_map.remove(i);
                let ghost rest = self.function_map@;
                function.variants.push(variant);
                self.function_map.insert(i, function);
                proof {
                    let after = self.function_map@;
                    assert(rest == before.remove(i as int));
                    assert(after == rest.insert(i as int, function));
                    assert(after[i as int] == function);
                    assert forall|j: int| 0 <= j < before.len() && j != i implies #[trigger] after[j]
                        == before[j] by {
                        if j < i {
                            assert(rest[j] == before[j]);
                        } else {
                            assert(rest[j - 1] == before[j]);
                            assert(after[j] == rest[j - 1]);
                        }
                    }
                }
                return ;
            }
            i += 1;
        }
        proof {
            assert forall|k: int| !is_first_named(before, name@, k) by {
                if is_first_named(before, name@, k) {
                    assert(before[k].name@ != name@);
                }
            }
        }
        let mut variants: Vec<FunctionVariant> = Vec::new();
        variants.push(variant);
        self.function_map.push(Function { name, variants });
    }
}

} // verus!
