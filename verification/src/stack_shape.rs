//! The stack discipline of compiled code.
//!
//! Compiled code keeps the value stack in shape whatever the values are:
//! it never takes more values than there are, and a task that runs the body
//! of an alternative to its end holds exactly one value. This is stated
//! over the height of the stack alone, and carried over to the steps of a task.

use crate::ast::Expr;
use crate::bindings::Env;
use crate::bytecode::InstructionView;
use crate::callable::CallableView;
use crate::translator::{
    fits, is_only_complex, lemma_body_fits, lower, lower_all, lower_body, single_complex,
    CallStatus,
};
use crate::value::ValueView;
use crate::vm::{resolve, task_step, ExecErrorView, StepResultView, TaskView};
use vstd::prelude::*;

verus! {

/// The height of the value stack after one instruction, the value that an
/// ordinary call returns counted in; nothing where the instruction needs
/// more values than there are. After `Tail` the task is gone: the height is 0.
pub open spec fn height_after(instruction: InstructionView, height: nat) -> Option<nat> {
    match instruction {
        InstructionView::LoadConst(_) => Some(height + 1),
        InstructionView::LoadVar { .. } => Some(height + 1),
        InstructionView::Call(n) => if height >= n + 1 {
            Some((height - n) as nat)
        } else {
            None
        },
        InstructionView::Cat(n) => if height >= n {
            Some((height - n + 1) as nat)
        } else {
            None
        },
        InstructionView::Tail { prepend, append } => if height >= prepend + append + 1 {
            Some(0)
        } else {
            None
        },
    }
}

/// The height of the value stack after the instructions of `code` in their
/// order, from `height`; nothing where one of them needs more values than
/// there are.
pub open spec fn height_through(code: Seq<InstructionView>, height: nat) -> Option<nat>
    decreases code.len(),
{
    if code.len() == 0 {
        Some(height)
    } else {
        match height_through(code.drop_last(), height) {
            Some(h) => height_after(code.last(), h),
            None => None,
        }
    }
}

/// Whether no instruction of `code` is a `Tail`.
pub open spec fn tail_free(code: Seq<InstructionView>) -> bool {
    forall|i: int| 0 <= i < code.len() ==> !((#[trigger] code[i]) is Tail)
}

/// Whether `code` keeps the stack in shape from the empty stack: no
/// instruction needs more values than there are, and the code either holds
/// no `Tail` and leaves one value, or ends in its only `Tail`.
pub open spec fn well_shaped(code: Seq<InstructionView>) -> bool {
    ||| tail_free(code) && height_through(code, 0) == Some(1nat)
    ||| code.len() > 0 && code.last() is Tail && tail_free(code.drop_last()) && height_through(
        code,
        0,
    ) is Some
}

proof fn lemma_height_concat(a: Seq<InstructionView>, b: Seq<InstructionView>, height: nat)
    ensures
        height_through(a + b, height) == match height_through(a, height) {
            Some(h) => height_through(b, h),
            None => None,
        },
    decreases b.len(),
{
    if b.len() == 0 {
        assert(a + b =~= a);
    } else {
        lemma_height_concat(a, b.drop_last(), height);
        assert((a + b).drop_last() =~= a + b.drop_last());
        assert((a + b).last() == b.last());
    }
}

proof fn lemma_height_one(instruction: InstructionView, height: nat)
    ensures
        height_through(seq![instruction], height) == height_after(instruction, height),
{
    let code = seq![instruction];
    assert(code.drop_last() =~= Seq::<InstructionView>::empty());
    assert(code.last() == instruction);
    assert(height_through(code.drop_last(), height) == Some(height));
}

proof fn lemma_height_prefix(code: Seq<InstructionView>, k: int, height: nat)
    requires
        0 <= k <= code.len(),
        height_through(code, height) is Some,
    ensures
        height_through(code.take(k), height) is Some,
{
    assert(code =~= code.take(k) + code.skip(k));
    lemma_height_concat(code.take(k), code.skip(k), height);
}

proof fn lemma_tail_free_concat(a: Seq<InstructionView>, b: Seq<InstructionView>)
    requires
        tail_free(a),
        tail_free(b),
    ensures
        tail_free(a + b),
{
    assert forall|i: int| 0 <= i < (a + b).len() implies !((#[trigger] (a + b)[i]) is Tail) by {
        if i < a.len() {
            assert((a + b)[i] == a[i]);
        } else {
            assert((a + b)[i] == b[i - a.len()]);
        }
    }
}

/// Code compiled out of tail position pushes one value and holds no `Tail`.
pub proof fn lemma_regular_shape(expr: Expr, height: nat)
    ensures
        height_through(lower(expr, CallStatus::Regular), height) == Some(height + 1),
        tail_free(lower(expr, CallStatus::Regular)),
    decreases expr,
{
    let code = lower(expr, CallStatus::Regular);
    match expr {
        Expr::Variable { name, trampoline } => {
            lemma_height_one(code[0], height);
            assert(code =~= seq![code[0]]);
        },
        Expr::Literal(bits) => {
            lemma_height_one(code[0], height);
            assert(code =~= seq![code[0]]);
        },
        Expr::Call { callee, args } => {
            let first = lower(*callee, CallStatus::Regular);
            let rest = lower_all(args@);
            let last = seq![InstructionView::Call(args@.len())];
            lemma_regular_shape(*callee, height);
            lemma_sequence_shape(args@, height + 1);
            lemma_height_concat(first, rest, height);
            lemma_height_concat(first + rest, last, height);
            lemma_height_one(last[0], height + 1 + args@.len());
            lemma_tail_free_concat(first, rest);
            lemma_tail_free_concat(first + rest, last);
        },
        Expr::Cat { children } => {
            let first = lower_all(children@);
            let last = seq![InstructionView::Cat(children@.len())];
            lemma_sequence_shape(children@, height);
            lemma_height_concat(first, last, height);
            lemma_height_one(last[0], height + children@.len());
            lemma_tail_free_concat(first, last);
        },
    }
}

/// The code of a list of expressions pushes one value for each and holds no `Tail`.
pub proof fn lemma_sequence_shape(exprs: Seq<Expr>, height: nat)
    ensures
        height_through(lower_all(exprs), height) == Some(height + exprs.len()),
        tail_free(lower_all(exprs)),
    decreases exprs,
{
    if exprs.len() > 0 {
        let first = lower_all(exprs.drop_last());
        let last = lower(exprs.last(), CallStatus::Regular);
        lemma_sequence_shape(exprs.drop_last(), height);
        lemma_regular_shape(exprs.last(), (height + exprs.len() - 1) as nat);
        lemma_height_concat(first, last, height);
        lemma_tail_free_concat(first, last);
    }
}

/// Whether an expression compiled in tail position ends in a tail call.
pub open spec fn ends_in_call(expr: Expr) -> bool {
    match expr {
        Expr::Call { .. } => true,
        Expr::Cat { children } => single_complex(children@) is Some,
        _ => false,
    }
}

/// Code compiled in tail position, on top of the bit strings that the
/// status counts: where it ends in a tail call, the `Tail` is its last and
/// only one and finds all it needs; where not, it holds no `Tail` and pushes
/// one value.
pub proof fn lemma_tail_shape(expr: Expr, prepend: usize, append: usize)
    requires
        fits(expr, CallStatus::Tail { prepend, append }),
    ensures
        ({
            let code = lower(expr, CallStatus::Tail { prepend, append });
            let start = (prepend + append) as nat;
            if ends_in_call(expr) {
                code.len() > 0 && code.last() is Tail && tail_free(code.drop_last())
                    && height_through(code, start) == Some(0nat)
            } else {
                tail_free(code) && height_through(code, start) == Some(start + 1)
            }
        }),
    decreases expr,
{
    let status = CallStatus::Tail { prepend, append };
    let code = lower(expr, status);
    let start = (prepend + append) as nat;
    match expr {
        Expr::Variable { name, trampoline } => {
            lemma_height_one(code[0], start);
            assert(code =~= seq![code[0]]);
        },
        Expr::Literal(bits) => {
            lemma_height_one(code[0], start);
            assert(code =~= seq![code[0]]);
        },
        Expr::Call { callee, args } => {
            let first = lower(*callee, CallStatus::Regular);
            let rest = lower_all(args@);
            let last = seq![
                InstructionView::Tail { prepend: prepend as nat, append: append as nat },
            ];
            lemma_regular_shape(*callee, start);
            lemma_sequence_shape(args@, start + 1);
            lemma_height_concat(first, rest, start);
            lemma_height_concat(first + rest, last, start);
            lemma_height_one(last[0], start + 1 + args@.len());
            lemma_tail_free_concat(first, rest);
            assert(code.drop_last() =~= first + rest);
            assert(code.last() == last[0]);
        },
        Expr::Cat { children } => {
            match single_complex(children@) {
                Some(i) => {
                    assert(is_only_complex(children@, i));
                    let before = lower_all(children@.take(i));
                    let after = lower_all(children@.skip(i + 1));
                    let inner_prepend = (i + prepend) as usize;
                    let inner_append = (children@.len() - i - 1 + append) as usize;
                    let focus = lower(
                        children@[i],
                        CallStatus::Tail { prepend: inner_prepend, append: inner_append },
                    );
                    lemma_sequence_shape(children@.take(i), start);
                    lemma_sequence_shape(children@.skip(i + 1), start + i as nat);
                    lemma_tail_shape(children@[i], inner_prepend, inner_append);
                    lemma_height_concat(before, after, start);
                    lemma_height_concat(before + after, focus, start);
                    lemma_tail_free_concat(before, after);
                    lemma_tail_free_concat(before + after, focus.drop_last());
                    assert(code.drop_last() =~= before + after + focus.drop_last());
                    assert(code.last() == focus.last());
                },
                None => {
                    let first = lower_all(children@);
                    let last = seq![InstructionView::Cat(children@.len())];
                    lemma_sequence_shape(children@, start);
                    lemma_height_concat(first, last, start);
                    lemma_height_one(last[0], start + children@.len());
                    lemma_tail_free_concat(first, last);
                },
            }
        },
    }
}

/// The body of an alternative compiles to code that keeps the stack in shape.
pub proof fn lemma_body_well_shaped(expr: Expr)
    ensures
        well_shaped(lower_body(expr)),
{
    lemma_body_fits(expr);
    lemma_tail_shape(expr, 0, 0);
}

/// Whether the task is about to load, with `trampoline` set, a compiled
/// function that can be called with no argument: the step that calls it.
pub open spec fn fires<N>(task: TaskView<N>, globals: Env<N>) -> bool {
    &&& task.cursor < task.bytecode.len()
    &&& task.bytecode[task.cursor as int] matches InstructionView::LoadVar { name, trampoline }
    &&& trampoline
    &&& resolve(task.locals, globals, name) matches Some(
        ValueView::Callable(CallableView::Coded(f)),
    )
    &&& f.is_trampoline_callable()
}

/// Whether `after` can follow `before` in the life of a task: by a step that
/// asks nothing of the machine, or by a step that asks for an ordinary call
/// and the value, whatever it is, that the call returns. A tail call and the
/// end of the code end the life of the task.
pub open spec fn task_moves<N>(before: TaskView<N>, after: TaskView<N>, globals: Env<N>) -> bool {
    match task_step(before, globals) {
        Ok(next) => match next.1 {
            StepResultView::Nothing => after == next.0,
            StepResultView::Call { tail, .. } => tail is NotTail && exists|value: ValueView<N>|
                after == next.0.with_stack(#[trigger] next.0.stack.push(value)),
            StepResultView::FinishTask { .. } => false,
        },
        Err(_) => false,
    }
}

/// Whether the state at `i + 1` of the run can follow the state at `i`.
pub open spec fn moves_at<N>(run: Seq<TaskView<N>>, i: int, globals: Env<N>) -> bool {
    task_moves(run[i], run[i + 1], globals)
}

/// Whether `run` is a run of a task: the states of the task one after
/// another, each following from the one before.
pub open spec fn is_run<N>(run: Seq<TaskView<N>>, globals: Env<N>) -> bool {
    &&& run.len() > 0
    &&& forall|i: int| 0 <= i < run.len() - 1 ==> #[trigger] moves_at(run, i, globals)
}

/// What holds of a task all along its run of well-shaped code: the
/// instructions behind the cursor hold no `Tail`, and the stack is as high
/// as they make it; only where a trampoline call recurs, higher.
pub open spec fn in_shape<N>(task: TaskView<N>, globals: Env<N>) -> bool {
    let done = task.bytecode.take(task.cursor as int);
    &&& task.cursor <= task.bytecode.len()
    &&& height_through(task.bytecode, 0) is Some
    &&& tail_free(done)
    &&& height_through(done, 0) matches Some(h)
    &&& (task.stack.len() == h || (fires(task, globals) && task.stack.len() >= h))
}

proof fn lemma_move_keeps_shape<N>(before: TaskView<N>, after: TaskView<N>, globals: Env<N>)
    requires
        in_shape(before, globals),
        task_moves(before, after, globals),
    ensures
        in_shape(after, globals),
        after.bytecode == before.bytecode,
{
    let code = before.bytecode;
    let k = before.cursor as int;
    assert(k < code.len());
    let done = code.take(k);
    let h = height_through(done, 0).unwrap();
    let further = code.take(k + 1);
    assert(further.drop_last() =~= done);
    assert(further.last() == code[k]);
    lemma_height_prefix(code, k + 1, 0);
    let next = match task_step(before, globals) {
        Ok(next) => next,
        Err(_) => arbitrary(),
    };
    if fires(before, globals) {
        assert(next.0 == before);
        assert(fires(after, globals));
    } else {
        assert(before.stack.len() == h);
        assert(!(code[k] is Tail));
        assert(after.cursor == k + 1);
        assert(after.bytecode.take(after.cursor as int) =~= further);
        assert forall|i: int| 0 <= i < further.len() implies !((#[trigger] further[i]) is Tail) by {
            if i < k {
                assert(done[i] == further[i]);
            }
        }
        assert(height_through(further, 0) == height_after(code[k], h));
        assert(height_after(code[k], h) == Some(after.stack.len()));
    }
}

proof fn lemma_run_keeps_shape<N>(run: Seq<TaskView<N>>, globals: Env<N>)
    requires
        is_run(run, globals),
        in_shape(run[0], globals),
    ensures
        in_shape(run.last(), globals),
        run.last().bytecode == run[0].bytecode,
    decreases run.len(),
{
    if run.len() > 1 {
        let before = run.drop_last();
        assert forall|i: int| 0 <= i < before.len() - 1 implies #[trigger] moves_at(
            before,
            i,
            globals,
        ) by {
            assert(moves_at(run, i, globals));
        }
        lemma_run_keeps_shape(before, globals);
        assert(moves_at(run, run.len() - 2, globals));
        lemma_move_keeps_shape(before.last(), run.last(), globals);
    }
}

/// A task that runs the compiled body of an alternative from its start, in
/// any environment and whatever its calls return, never finds the value
/// stack too low for an instruction; and when its cursor has passed the last
/// instruction, its stack holds exactly one value, which it hands back.
pub proof fn lemma_compiled_body_leaves_one_value<N>(
    expr: Expr,
    run: Seq<TaskView<N>>,
    globals: Env<N>,
)
    requires
        is_run(run, globals),
        run[0].bytecode == lower_body(expr),
        run[0].cursor == 0,
        run[0].stack.len() == 0,
    ensures
        task_step(run.last(), globals) != Err::<(TaskView<N>, StepResultView<N>), _>(
            ExecErrorView::<N>::ValueStackEmpty,
        ),
        run.last().cursor >= run.last().bytecode.len() ==> run.last().stack.len() == 1 && task_step(
            run.last(),
            globals,
        ) == Ok::<_, ExecErrorView<N>>(
            (run.last(), StepResultView::FinishTask { return_value: run.last().stack[0] }),
        ),
{
    let code = lower_body(expr);
    let start = run[0];
    let end = run.last();
    lemma_body_well_shaped(expr);
    assert(start.bytecode.take(0) =~= Seq::<InstructionView>::empty());
    assert(in_shape(start, globals));
    lemma_run_keeps_shape(run, globals);
    let k = end.cursor as int;
    let done = code.take(k);
    let h = height_through(done, 0).unwrap();
    if k >= code.len() {
        assert(done =~= code);
        assert(!fires(end, globals));
        if code.len() > 0 && code.last() is Tail {
            assert(done[code.len() - 1] is Tail);
        }
        assert(end.stack.len() == 1);
    } else {
        let further = code.take(k + 1);
        assert(further.drop_last() =~= done);
        assert(further.last() == code[k]);
        lemma_height_prefix(code, k + 1, 0);
        assert(height_after(code[k], h) is Some);
    }
}

} // verus!
