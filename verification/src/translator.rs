//! The compiler: from expressions to bytecode.
//!
//! What an expression compiles to is the function [`lower`]. An expression
//! in tail position is compiled under `CallStatus::Tail`; every other under
//! `CallStatus::Regular`.

use crate::ast::{Expr, Function, FunctionMap, FunctionVariant, Program};
use crate::bytecode::{instructions_view, Bytecode, Instruction, InstructionView};
use crate::callable::{Callable, CallableView};
use crate::coded_function::{CodedFunction, CodedFunctionVariant, CodedFunctionView, VariantView};
use crate::compiled::{
    definitions_view, Definition, DefinitionView, FunctionMap as CompiledFunctionMap,
    Program as CompiledProgram,
};
use vstd::prelude::*;

verus! {

/// Where the expression stands that is being compiled.
#[derive(Debug, PartialEq, Eq, Structural)]
pub enum CallStatus {
    /// Not in tail position: a call returns to the task that made it.
    Regular,
    /// In tail position, with that many bit strings already pushed to go
    /// before and after the result.
    Tail { prepend: usize, append: usize },
}

impl Copy for CallStatus {

}

impl Clone for CallStatus {
    fn clone(&self) -> (r: Self)
        ensures
            r == *self,
    {
        *self
    }
}

/// Whether the expression is complex: whether it is a call.
pub open spec fn is_complex(expr: Expr) -> bool {
    expr is Call
}

/// Whether the expression at `i` is complex and no other is.
pub open spec fn is_only_complex(exprs: Seq<Expr>, i: int) -> bool {
    &&& 0 <= i < exprs.len()
    &&& is_complex(exprs[i])
    &&& forall|j: int| 0 <= j < exprs.len() && j != i ==> !is_complex(#[trigger] exprs[j])
}

/// The index of the one complex expression; nothing where none is complex
/// or more than one.
pub open spec fn single_complex(exprs: Seq<Expr>) -> Option<int> {
    if exists|i: int| is_only_complex(exprs, i) {
        Some(choose|i: int| is_only_complex(exprs, i))
    } else {
        None
    }
}

/// The instruction that ends a call.
pub open spec fn call_instruction(args: nat, call_status: CallStatus) -> InstructionView {
    match call_status {
        CallStatus::Regular => InstructionView::Call(args),
        CallStatus::Tail { prepend, append } => InstructionView::Tail {
            prepend: prepend as nat,
            append: append as nat,
        },
    }
}

/// What an expression compiles to.
pub open spec fn lower(expr: Expr, call_status: CallStatus) -> Seq<InstructionView>
    decreases expr,
{
    match expr {
        Expr::Variable { name, trampoline } => seq![
            InstructionView::LoadVar { name: name@, trampoline },
        ],
        Expr::Literal(bits) => seq![InstructionView::LoadConst(bits@)],
        Expr::Call { callee, args } => lower(*callee, CallStatus::Regular) + lower_all(args@)
            + seq![call_instruction(args@.len(), call_status)],
        Expr::Cat { children } => match call_status {
            CallStatus::Tail { prepend, append } => match single_complex(children@) {
                Some(i) => {
                    proof {
                        assert(is_only_complex(children@, i));
                    }
                    lower_all(children@.take(i)) + lower_all(children@.skip(i + 1)) + lower(
                        children@[i],
                        CallStatus::Tail {
                            prepend: (i + prepend) as usize,
                            append: (children@.len() - i - 1 + append) as usize,
                        },
                    )
                },
                None => lower_all(children@) + seq![InstructionView::Cat(children@.len())],
            },
            CallStatus::Regular => lower_all(children@) + seq![
                InstructionView::Cat(children@.len()),
            ],
        },
    }
}

/// What a list of expressions, none of them in tail position, compiles to:
/// the code of each, in their order.
pub open spec fn lower_all(exprs: Seq<Expr>) -> Seq<InstructionView>
    decreases exprs,
{
    if exprs.len() == 0 {
        Seq::empty()
    } else {
        lower_all(exprs.drop_last()) + lower(exprs.last(), CallStatus::Regular)
    }
}

/// Whether the counts that compiling `expr` under `call_status` writes into
/// a `Tail` instruction fit a `usize`.
pub open spec fn fits(expr: Expr, call_status: CallStatus) -> bool {
    match (expr, call_status) {
        (Expr::Cat { children }, CallStatus::Tail { prepend, append }) => match single_complex(
            children@,
        ) {
            Some(i) => i + prepend <= usize::MAX && children@.len() - i - 1 + append
                <= usize::MAX,
            None => true,
        },
        _ => true,
    }
}

/// What the body of an alternative compiles to: its code in tail position,
/// with nothing to go before or after the result.
pub open spec fn lower_body(expr: Expr) -> Seq<InstructionView> {
    lower(expr, CallStatus::Tail { prepend: 0, append: 0 })
}

/// What an alternative compiles to.
pub open spec fn compiled_variant(variant: FunctionVariant) -> VariantView {
    VariantView { patterns: variant.patterns@, body: lower_body(variant.body) }
}

/// What a function compiles to.
pub open spec fn compiled_function(function: Function) -> CodedFunctionView {
    CodedFunctionView {
        name: function.name@,
        variants: function.variants@.map_values(|v: FunctionVariant| compiled_variant(v)),
    }
}

/// What the functions of a program compile to, each under its name.
pub open spec fn compiled_map<N>(functions: Seq<Function>) -> Seq<DefinitionView<N>> {
    functions.map_values(
        |f: Function|
            DefinitionView { name: f.name@, callable: CallableView::Coded(compiled_function(f)) },
    )
}

/// How many nodes the expression has.
pub open spec fn size(expr: Expr) -> nat
    decreases expr,
{
    match expr {
        Expr::Variable { .. } => 1,
        Expr::Literal(_) => 1,
        Expr::Call { callee, args } => 1 + size(*callee) + sizes(args@),
        Expr::Cat { children } => 1 + sizes(children@),
    }
}

/// How many nodes the expressions have together.
pub open spec fn sizes(exprs: Seq<Expr>) -> nat
    decreases exprs,
{
    if exprs.len() == 0 {
        0
    } else {
        sizes(exprs.drop_last()) + size(exprs.last())
    }
}

proof fn lemma_sizes_concat(a: Seq<Expr>, b: Seq<Expr>)
    ensures
        sizes(a + b) == sizes(a) + sizes(b),
    decreases b.len(),
{
    if b.len() == 0 {
        assert(a + b =~= a);
    } else {
        lemma_sizes_concat(a, b.drop_last());
        assert((a + b).drop_last() =~= a + b.drop_last());
        assert((a + b).last() == b.last());
    }
}

proof fn lemma_sizes_split(exprs: Seq<Expr>, i: int)
    requires
        0 <= i < exprs.len(),
    ensures
        sizes(exprs) == sizes(exprs.take(i)) + size(exprs[i]) + sizes(exprs.skip(i + 1)),
{
    let one = seq![exprs[i]];
    assert(exprs =~= exprs.take(i) + one + exprs.skip(i + 1));
    lemma_sizes_concat(exprs.take(i) + one, exprs.skip(i + 1));
    lemma_sizes_concat(exprs.take(i), one);
    assert(one.drop_last() =~= Seq::<Expr>::empty());
    assert(sizes(one) == size(exprs[i])) by {
        assert(one.last() == exprs[i]);
        assert(sizes(one.drop_last()) == 0);
    }
}

proof fn lemma_lower_all_concat(a: Seq<Expr>, b: Seq<Expr>)
    ensures
        lower_all(a + b) == lower_all(a) + lower_all(b),
    decreases b.len(),
{
    if b.len() == 0 {
        assert(a + b =~= a);
        assert(lower_all(a) + lower_all(b) =~= lower_all(a));
    } else {
        lemma_lower_all_concat(a, b.drop_last());
        assert((a + b).drop_last() =~= a + b.drop_last());
        assert((a + b).last() == b.last());
        assert(lower_all(a + b) =~= lower_all(a) + lower_all(b));
    }
}

/// At most one index is that of the only complex expression.
pub proof fn lemma_only_complex_unique(exprs: Seq<Expr>, i: int, j: int)
    requires
        is_only_complex(exprs, i),
        is_only_complex(exprs, j),
    ensures
        i == j,
{
}

/// Something that compiles to a program for the machine.
pub trait Compile<N> {
    /// What it compiles to.
    spec fn compiled(&self) -> Seq<DefinitionView<N>>;

    fn compile(self) -> (r: CompiledProgram<N>)
        ensures
            definitions_view(r.function_map@) == self.compiled(),
    ;
}

/// Something that compiles to the code of an alternative.
pub trait ToBytecode {
    /// Whether the counts in its code fit a `usize`.
    spec fn bytecode_fits(&self) -> bool;

    /// What it compiles to.
    spec fn bytecode(&self) -> Seq<InstructionView>;

    fn to_bytecode(self) -> (r: Bytecode)
        requires
            self.bytecode_fits(),
        ensures
            r@ == self.bytecode(),
    ;
}

/// Something that compiles to instructions.
pub trait ToInstructions: Sized {
    /// Whether the counts in its code fit a `usize`.
    spec fn instructions_fit(&self, call_status: CallStatus) -> bool;

    /// What it compiles to.
    spec fn instructions(&self, call_status: CallStatus) -> Seq<InstructionView>;

    fn to_instructions(self, call_status: CallStatus) -> (r: Vec<Instruction>)
        requires
            self.instructions_fit(call_status),
        ensures
            instructions_view(r@) == self.instructions(call_status),
    ;
}

impl<T: ToInstructions> ToBytecode for T {
    open spec fn bytecode_fits(&self) -> bool {
        self.instructions_fit(CallStatus::Tail { prepend: 0, append: 0 })
    }

    open spec fn bytecode(&self) -> Seq<InstructionView> {
        self.instructions(CallStatus::Tail { prepend: 0, append: 0 })
    }

    fn to_bytecode(self) -> (r: Bytecode) {
        Bytecode::new(self.to_instructions(CallStatus::Tail { prepend: 0, append: 0 }))
    }
}

impl ToInstructions for Expr {
    open spec fn instructions_fit(&self, call_status: CallStatus) -> bool {
        fits(*self, call_status)
    }

    open spec fn instructions(&self, call_status: CallStatus) -> Seq<InstructionView> {
        lower(*self, call_status)
    }

    fn to_instructions(self, call_status: CallStatus) -> (r: Vec<Instruction>) {
        expr_to_instructions(self, call_status)
    }
}

/// The body of an alternative always fits: it starts with nothing pushed.
pub proof fn lemma_body_fits(expr: Expr)
    ensures
        fits(expr, CallStatus::Tail { prepend: 0, append: 0 }),
{
    match expr {
        Expr::Cat { children } => {
            if single_complex(children@) is Some {
                let i = single_complex(children@).unwrap();
                assert(is_only_complex(children@, i));
                assert(children@.len() == children.len());
            }
        },
        _ => {},
    }
}

impl<N> Compile<N> for Program {
    open spec fn compiled(&self) -> Seq<DefinitionView<N>> {
        compiled_map(self.function_map@)
    }

    fn compile(self) -> (r: CompiledProgram<N>) {
        CompiledProgram { function_map: compile_function_map(self.function_map) }
    }
}

/// Compiles the functions of a program, each under its name.
pub fn compile_function_map<N>(function_map: FunctionMap) -> (r: CompiledFunctionMap<N>)
    ensures
        definitions_view(r@) == compiled_map::<N>(function_map@),
{
    let ghost all = function_map@;
    let mut out: Vec<Definition<N>> = Vec::new();
    for func in it: function_map
        invariant
            all == it.seq(),
            out@.len() == it.index(),
            forall|j: int|
                0 <= j < out@.len() ==> (#[trigger] out@[j])@ == compiled_map::<N>(all)[j],
    {
        let name = func.name.clone();
        let callable = Callable::Coded(compile_function(func));
        out.push(Definition { name, callable });
    }
    assert(definitions_view(out@) =~= compiled_map::<N>(all));
    out
}

/// Compiles a function: each alternative, in their order.
pub fn compile_function(func: Function) -> (r: CodedFunction)
    ensures
        r@ == compiled_function(func),
{
    let ghost all = func.variants@;
    let mut variants: Vec<CodedFunctionVariant> = Vec::new();
    for var in it: func.variants
        invariant
            all == it.seq(),
            variants@.len() == it.index(),
            forall|j: int|
                0 <= j < variants@.len() ==> (#[trigger] variants@[j])@ == compiled_variant(all[j]),
    {
        variants.push(compile_function_variant(var));
    }
    assert(variants@.map_values(|v: CodedFunctionVariant| v@) =~= all.map_values(
        |v: FunctionVariant| compiled_variant(v),
    ));
    CodedFunction { name: func.name, variants }
}

/// Compiles an alternative: its patterns as they are, its body in tail position.
pub fn compile_function_variant(var: FunctionVariant) -> (r: CodedFunctionVariant)
    ensures
        r@ == compiled_variant(var),
{
    proof {
        lemma_body_fits(var.body);
    }
    CodedFunctionVariant { patterns: var.patterns, body: var.body.to_bytecode() }
}

/// Compiles an expression.
fn expr_to_instructions(expr: Expr, call_status: CallStatus) -> (r: Vec<Instruction>)
    requires
        fits(expr, call_status),
    ensures
        instructions_view(r@) == lower(expr, call_status),
    decreases size(expr), 0nat,
{
    match expr {
        Expr::Variable { name, trampoline } => {
            let mut instructions: Vec<Instruction> = Vec::new();
            instructions.push(Instruction::LoadVar { name, trampoline });
            assert(instructions_view(instructions@) =~= lower(expr, call_status));
            instructions
        },
        Expr::Literal(bit_string) => {
            let mut instructions: Vec<Instruction> = Vec::new();
            instructions.push(Instruction::LoadConst(bit_string));
            assert(instructions_view(instructions@) =~= lower(expr, call_status));
            instructions
        },
        Expr::Call { callee, args } => function_call_to_instructions(*callee, args, call_status),
        Expr::Cat { children } => concatenation_to_instructions(children, call_status),
    }
}

/// Appends to `instructions` the code of each of `exprs`, none of them in
/// tail position.
fn sequence_to_instructions(exprs: Vec<Expr>, instructions: &mut Vec<Instruction>)
    ensures
        instructions_view(final(instructions)@) == instructions_view(old(instructions)@)
            + lower_all(exprs@),
    decreases sizes(exprs@), 1nat,
{
    let ghost all = exprs@;
    let ghost start = instructions_view(instructions@);
    assert(all.take(0) =~= Seq::<Expr>::empty());
    assert(start + lower_all(all.take(0)) =~= start);
    for expr in it: exprs
        invariant
            all == it.seq(),
            all == exprs@,
            instructions_view(instructions@) == start + lower_all(all.take(it.index() as int)),
    {
        proof {
            let k = it.index() as int;
            lemma_sizes_split(all, k);
            assert(all.take(k + 1).drop_last() =~= all.take(k));
            assert(all.take(k + 1).last() == expr);
        }
        let ghost before = instructions@;
        let mut part = expr_to_instructions(expr, CallStatus::Regular);
        instructions.append(&mut part);
        assert(instructions_view(instructions@) =~= instructions_view(before) + lower(
            expr,
            CallStatus::Regular,
        ));
        assert(start + lower_all(all.take(it.index() as int)) + lower(expr, CallStatus::Regular)
            =~= start + lower_all(all.take(it.index() + 1)));
    }
    assert(all.take(all.len() as int) =~= all);
}

/// Compiles a call: the callee, the arguments in their order, and the
/// instruction that calls.
pub fn function_call_to_instructions(callee: Expr, args: Vec<Expr>, call_status: CallStatus) -> (r:
    Vec<Instruction>)
    ensures
        instructions_view(r@) == lower(callee, CallStatus::Regular) + lower_all(args@) + seq![
            call_instruction(args@.len(), call_status),
        ],
    decreases size(callee) + sizes(args@), 2nat,
{
    let mut instructions = expr_to_instructions(callee, CallStatus::Regular);
    let len: usize = args.len();
    sequence_to_instructions(args, &mut instructions);
    let ghost before = instructions@;
    instructions.push(
        match call_status {
            CallStatus::Regular => Instruction::Call(len),
            CallStatus::Tail { prepend, append } => Instruction::Tail { prepend, append },
        },
    );
    assert(instructions_view(instructions@) =~= instructions_view(before) + seq![
        call_instruction(args@.len(), call_status),
    ]);
    instructions
}

/// What a concatenation compiles to.
pub open spec fn lower_cat(children: Seq<Expr>, call_status: CallStatus) -> Seq<InstructionView> {
    match call_status {
        CallStatus::Tail { prepend, append } => match single_complex(children) {
            Some(i) => lower_all(children.take(i)) + lower_all(children.skip(i + 1)) + lower(
                children[i],
                CallStatus::Tail {
                    prepend: (i + prepend) as usize,
                    append: (children.len() - i - 1 + append) as usize,
                },
            ),
            None => lower_all(children) + seq![InstructionView::Cat(children.len())],
        },
        CallStatus::Regular => lower_all(children) + seq![InstructionView::Cat(children.len())],
    }
}

/// Whether the counts that compiling a concatenation of `children` under
/// `call_status` writes into a `Tail` instruction fit a `usize`.
pub open spec fn cat_fits(children: Seq<Expr>, call_status: CallStatus) -> bool {
    match call_status {
        CallStatus::Tail { prepend, append } => match single_complex(children) {
            Some(i) => i + prepend <= usize::MAX && children.len() - i - 1 + append <= usize::MAX,
            None => true,
        },
        CallStatus::Regular => true,
    }
}

/// Compiles a concatenation. In tail position with exactly one call among
/// the children, the other children are pushed and the call is made in tail
/// position, to take them before and after its result. Otherwise the
/// children are pushed and concatenated.
pub fn concatenation_to_instructions(children: Vec<Expr>, call_status: CallStatus) -> (r: Vec<
    Instruction,
>)
    requires
        cat_fits(children@, call_status),
    ensures
        instructions_view(r@) == lower_cat(children@, call_status),
    decreases sizes(children@), 2nat,
{
    match (find_single_complex_expr(&children), call_status) {
        (Some(i), CallStatus::Tail { prepend, append }) => {
            proof {
                lemma_sizes_split(children@, i as int);
            }
            let (prepends, focus, appends) = split_off_3(children, i);
            let prepends_len: usize = prepends.len();
            let appends_len: usize = appends.len();
            let mut instructions: Vec<Instruction> = Vec::new();
            assert(instructions_view(instructions@) =~= Seq::<InstructionView>::empty());
            sequence_to_instructions(prepends, &mut instructions);
            sequence_to_instructions(appends, &mut instructions);
            let ghost before = instructions@;
            let mut last = expr_to_instructions(
                focus,
                CallStatus::Tail { prepend: prepends_len + prepend, append: appends_len + append },
            );
            instructions.append(&mut last);
            assert(instructions_view(instructions@) =~= lower_cat(children@, call_status));
            instructions
        },
        _ => {
            let children_len: usize = children.len();
            let mut instructions: Vec<Instruction> = Vec::new();
            assert(instructions_view(instructions@) =~= Seq::<InstructionView>::empty());
            sequence_to_instructions(children, &mut instructions);
            let ghost before = instructions@;
            instructions.push(Instruction::Cat(children_len));
            assert(instructions_view(instructions@) =~= lower_cat(children@, call_status));
            instructions
        },
    }
}

/// Splits `vec` at `i` in three: what comes before, the element at `i`, and
/// what comes after.
pub fn split_off_3<T>(vec: Vec<T>, i: usize) -> (r: (Vec<T>, T, Vec<T>))
    requires
        i < vec@.len(),
    ensures
        r.0@ == vec@.take(i as int),
        r.1 == vec@[i as int],
        r.2@ == vec@.skip(i + 1),
{
    let mut left = vec;
    let mut middle_and_right = left.split_off(i);
    let right = middle_and_right.split_off(1);
    let middle_element = middle_and_right.pop().unwrap();
    assert(left@ =~= vec@.take(i as int));
    assert(right@ =~= vec@.skip(i + 1));
    (left, middle_element, right)
}

/// Whether the expression is complex: whether it is a call.
fn expr_is_complex(expr: &Expr) -> (r: bool)
    ensures
        r == is_complex(*expr),
{
    match expr {
        Expr::Call { .. } => true,
        _ => false,
    }
}

/// The index of the one complex expression; nothing where none is complex
/// or more than one.
pub fn find_single_complex_expr(exprs: &Vec<Expr>) -> (r: Option<usize>)
    ensures
        match r {
            Some(i) => single_complex(exprs@) == Some(i as int) && is_only_complex(exprs@, i as int),
            None => single_complex(exprs@) is None,
        },
{
    let mut last_complex: Option<usize> = None;
    let mut i: usize = 0;
    while i < exprs.len()
        invariant
            i <= exprs.len(),
            match last_complex {
                Some(k) => k < i && is_complex(exprs@[k as int]) && forall|j: int|
                    0 <= j < i && j != k ==> !is_complex(#[trigger] exprs@[j]),
                None => forall|j: int| 0 <= j < i ==> !is_complex(#[trigger] exprs@[j]),
            },
        decreases exprs.len() - i,
    {
        if expr_is_complex(&exprs[i]) {
            match last_complex {
                None => {
                    last_complex = Some(i);
                },
                Some(k) => {
                    assert forall|m: int| !is_only_complex(exprs@, m) by {
                        if is_only_complex(exprs@, m) {
                            if m == k {
                                assert(is_complex(exprs@[i as int]));
                            } else {
                                assert(is_complex(exprs@[k as int]));
                            }
                        }
                    }
                    return None;
                },
            }
        }
        i += 1;
    }
    proof {
        match last_complex {
            Some(k) => {
                assert(is_only_complex(exprs@, k as int));
                lemma_only_complex_unique(exprs@, k as int, single_complex(exprs@).unwrap());
            },
            None => {
                assert forall|m: int| !is_only_complex(exprs@, m) by {}
            },
        }
    }
    last_complex
}

/// A concatenation in tail position with exactly one call among its
/// children compiles to the code of the other children, in their order, and
/// the call made in tail position: no `Cat` is written, and the `Tail`
/// counts the children before and after the call.
pub proof fn lemma_fused_cat_code(children: Vec<Expr>, i: int, callee: Box<Expr>, args: Vec<Expr>)
    requires
        is_only_complex(children@, i),
        children@[i] == (Expr::Call { callee, args }),
    ensures
        lower_body(Expr::Cat { children }) == lower_all(children@.take(i)) + lower_all(
            children@.skip(i + 1),
        ) + lower(*callee, CallStatus::Regular) + lower_all(args@) + seq![
            InstructionView::Tail {
                prepend: i as nat,
                append: (children@.len() - i - 1) as nat,
            },
        ],
{
    lemma_only_complex_unique(children@, i, single_complex(children@).unwrap());
    assert(children@.len() == children.len());
    let status = CallStatus::Tail {
        prepend: (i + 0) as usize,
        append: (children@.len() - i - 1 + 0) as usize,
    };
    assert(lower(children@[i], status) == lower(*callee, CallStatus::Regular) + lower_all(args@)
        + seq![call_instruction(args@.len(), status)]);
    assert(lower_body(Expr::Cat { children }) == lower_all(children@.take(i)) + lower_all(
        children@.skip(i + 1),
    ) + lower(children@[i], status));
    let rest = lower_all(children@.take(i)) + lower_all(children@.skip(i + 1));
    let call = lower(*callee, CallStatus::Regular) + lower_all(args@);
    let last = seq![
        InstructionView::Tail { prepend: i as nat, append: (children@.len() - i - 1) as nat },
    ];
    assert(rest + (call + last) =~= rest + lower(*callee, CallStatus::Regular) + lower_all(args@)
        + last);
}

} // verus!
