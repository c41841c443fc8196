//! Tail-call fusion: a call made in tail position runs as the same call made
//! in the ordinary way runs, and hands on its result between the bit strings
//! that were to go round it.
//!
//! Two machines are set side by side. In the fused one a task, the callee of
//! a tail call, carries bit strings to go before and after its result. In
//! the plain one the same task carries less: `before` is missing in front
//! and `after` behind. Above these two tasks the machines hold the same
//! tasks. Such machines stay paired step by step, until the task returns;
//! and what the fused task hands on is what the plain one hands on, with
//! `before` and `after` round it.

use crate::bindings::Env;
use crate::bitstring::{concat_all, Bit};
use crate::callable::CallableView;
use crate::value::ValueView;
use crate::vm::{
    deliver, dispatch, finish_value, fused_append, fused_prepend, invoke_coded, invoke_plan,
    new_task, task_step, vm_step, ExecErrorView, StepResultView, Stepped, TailStatusView, TaskView,
    VmView,
};
use vstd::prelude::*;

verus! {

/// Whether `outer` is `inner` with `before` in front of what it puts before
/// its result and `after` behind what it puts after.
pub open spec fn wraps<N>(
    outer: TaskView<N>,
    inner: TaskView<N>,
    before: Seq<Bit>,
    after: Seq<Bit>,
) -> bool {
    &&& outer.bytecode == inner.bytecode
    &&& outer.locals == inner.locals
    &&& outer.stack == inner.stack
    &&& outer.cursor == inner.cursor
    &&& outer.prepend == before + inner.prepend
    &&& outer.append == inner.append + after
}

/// The task that stands `i` tasks above the one at `at`.
pub open spec fn task_above<N>(vm: VmView<N>, at: int, i: int) -> TaskView<N> {
    vm.tasks[at + i]
}

/// Whether the machines are paired: the same globals; the task at `at` of
/// `fused` wraps the task at `plain_at` of `plain`; and above them the same
/// tasks. What lies below the two is of no account.
pub open spec fn paired<N>(
    fused: VmView<N>,
    plain: VmView<N>,
    at: int,
    plain_at: int,
    before: Seq<Bit>,
    after: Seq<Bit>,
) -> bool {
    &&& fused.globals == plain.globals
    &&& 0 <= at < fused.tasks.len()
    &&& 0 <= plain_at < plain.tasks.len()
    &&& fused.tasks.len() - at == plain.tasks.len() - plain_at
    &&& wraps(fused.tasks[at], plain.tasks[plain_at], before, after)
    &&& forall|i: int|
        0 < i < fused.tasks.len() - at ==> #[trigger] task_above(fused, at, i) == task_above(
            plain,
            plain_at,
            i,
        )
}

/// Whether the paired task is the running one and its next step takes it
/// off the machine otherwise than by a tail call of a compiled function
/// that has a fitting alternative: it finishes, or it calls a host routine in
/// tail position, or its tail call fits no alternative.
pub open spec fn leaves<N>(plain: VmView<N>, plain_at: int) -> bool {
    plain.tasks.len() == plain_at + 1 && match task_step(plain.top(), plain.globals) {
        Ok(next) => match next.1 {
            StepResultView::FinishTask { .. } => true,
            StepResultView::Call { callable, arguments, tail } => tail is Tail && match callable {
                CallableView::Coded(f) => dispatch(f.variants, arguments) is None,
                CallableView::Native(_) => true,
            },
            StepResultView::Nothing => false,
        },
        Err(_) => false,
    }
}

/// Whether two steps went together: both made with the same result, or
/// both calling the same host routine with the same arguments; and the
/// machines still paired.
pub open spec fn together<N>(
    fused: Stepped<N>,
    plain: Stepped<N>,
    at: int,
    plain_at: int,
    before: Seq<Bit>,
    after: Seq<Bit>,
) -> bool {
    match (fused, plain) {
        (
            Stepped::Done { vm: fused_vm, result: fused_result },
            Stepped::Done { vm: plain_vm, result: plain_result },
        ) => fused_result == plain_result && paired(
            fused_vm,
            plain_vm,
            at,
            plain_at,
            before,
            after,
        ),
        (
            Stepped::Native { vm: fused_vm, function: fused_function, arguments: fused_arguments },
            Stepped::Native { vm: plain_vm, function: plain_function, arguments: plain_arguments },
        ) => fused_function == plain_function && fused_arguments == plain_arguments && paired(
            fused_vm,
            plain_vm,
            at,
            plain_at,
            before,
            after,
        ),
        _ => false,
    }
}

/// A step of a task does not look at what the task puts round its result.
pub proof fn lemma_step_ignores_buffers<N>(
    outer: TaskView<N>,
    inner: TaskView<N>,
    before: Seq<Bit>,
    after: Seq<Bit>,
    globals: Env<N>,
)
    requires
        wraps(outer, inner, before, after),
    ensures
        match task_step(inner, globals) {
            Ok(next) => task_step(outer, globals) matches Ok(other) && other.1 == next.1 && wraps(
                other.0,
                next.0,
                before,
                after,
            ),
            Err(e) => task_step(outer, globals) == Err::<(TaskView<N>, StepResultView<N>), _>(e),
        },
{
}

proof fn lemma_paired_with_top<N>(
    fused: VmView<N>,
    plain: VmView<N>,
    at: int,
    plain_at: int,
    before: Seq<Bit>,
    after: Seq<Bit>,
    fused_task: TaskView<N>,
    plain_task: TaskView<N>,
)
    requires
        paired(fused, plain, at, plain_at, before, after),
        fused.tasks.len() == at + 1 ==> wraps(fused_task, plain_task, before, after),
        fused.tasks.len() > at + 1 ==> fused_task == plain_task,
    ensures
        paired(fused.with_top(fused_task), plain.with_top(plain_task), at, plain_at, before, after),
{
    let a = fused.with_top(fused_task);
    let b = plain.with_top(plain_task);
    let count = fused.tasks.len() - at;
    assert forall|i: int| 0 < i < count implies #[trigger] task_above(a, at, i) == task_above(
        b,
        plain_at,
        i,
    ) by {
        if i < count - 1 {
            assert(task_above(fused, at, i) == task_above(plain, plain_at, i));
        }
    }
}

proof fn lemma_paired_push<N>(
    fused: VmView<N>,
    plain: VmView<N>,
    at: int,
    plain_at: int,
    before: Seq<Bit>,
    after: Seq<Bit>,
    task: TaskView<N>,
)
    requires
        paired(fused, plain, at, plain_at, before, after),
    ensures
        paired(fused.push_task(task), plain.push_task(task), at, plain_at, before, after),
{
    let a = fused.push_task(task);
    let b = plain.push_task(task);
    let count = fused.tasks.len() - at;
    assert forall|i: int| 0 < i < count + 1 implies #[trigger] task_above(a, at, i) == task_above(
        b,
        plain_at,
        i,
    ) by {
        if i < count {
            assert(task_above(fused, at, i) == task_above(plain, plain_at, i));
        }
    }
}

proof fn lemma_paired_pop<N>(
    fused: VmView<N>,
    plain: VmView<N>,
    at: int,
    plain_at: int,
    before: Seq<Bit>,
    after: Seq<Bit>,
)
    requires
        paired(fused, plain, at, plain_at, before, after),
        fused.tasks.len() > at + 1,
    ensures
        paired(fused.pop_task(), plain.pop_task(), at, plain_at, before, after),
        fused.top() == plain.top(),
{
    let a = fused.pop_task();
    let b = plain.pop_task();
    let count = fused.tasks.len() - at;
    assert(task_above(fused, at, count - 1) == task_above(plain, plain_at, count - 1));
    assert forall|i: int| 0 < i < count - 1 implies #[trigger] task_above(a, at, i) == task_above(
        b,
        plain_at,
        i,
    ) by {
        assert(task_above(fused, at, i) == task_above(plain, plain_at, i));
    }
}

/// Paired machines that are handed the same outcome of a host routine
/// return the same and stay paired.
pub proof fn lemma_paired_deliver<N>(
    fused: VmView<N>,
    plain: VmView<N>,
    at: int,
    plain_at: int,
    before: Seq<Bit>,
    after: Seq<Bit>,
    outcome: Result<ValueView<N>, ExecErrorView<N>>,
)
    requires
        paired(fused, plain, at, plain_at, before, after),
    ensures
        deliver(fused, outcome).1 == deliver(plain, outcome).1,
        paired(deliver(fused, outcome).0, deliver(plain, outcome).0, at, plain_at, before, after),
{
    match outcome {
        Ok(value) => {
            let count = fused.tasks.len() - at;
            if count > 1 {
                assert(task_above(fused, at, count - 1) == task_above(plain, plain_at, count - 1));
            }
            lemma_paired_with_top(
                fused,
                plain,
                at,
                plain_at,
                before,
                after,
                fused.top().with_stack(fused.top().stack.push(value)),
                plain.top().with_stack(plain.top().stack.push(value)),
            );
        },
        Err(_) => {},
    }
}

proof fn lemma_paired_invoke<N>(
    fused: VmView<N>,
    plain: VmView<N>,
    at: int,
    plain_at: int,
    before: Seq<Bit>,
    after: Seq<Bit>,
    callable: CallableView<N>,
    arguments: Seq<ValueView<N>>,
    prepend: Seq<Bit>,
    append: Seq<Bit>,
)
    requires
        paired(fused, plain, at, plain_at, before, after),
    ensures
        together(
            invoke_plan(fused, callable, arguments, prepend, append),
            invoke_plan(plain, callable, arguments, prepend, append),
            at,
            plain_at,
            before,
            after,
        ),
{
    match callable {
        CallableView::Coded(function) => {
            match new_task(function, arguments, prepend, append) {
                Ok(task) => {
                    lemma_paired_push(fused, plain, at, plain_at, before, after, task);
                },
                Err(_) => {},
            }
        },
        CallableView::Native(_) => {},
    }
}

/// Paired machines step together: as long as the paired task does not
/// leave, a step of the one and a step of the other are made with the same
/// result, or call the same host routine with the same arguments, and leave
/// the machines paired.
pub proof fn lemma_paired_step<N>(
    fused: VmView<N>,
    plain: VmView<N>,
    at: int,
    plain_at: int,
    before: Seq<Bit>,
    after: Seq<Bit>,
)
    requires
        paired(fused, plain, at, plain_at, before, after),
        !leaves(plain, plain_at),
    ensures
        together(vm_step(fused), vm_step(plain), at, plain_at, before, after),
{
    let globals = plain.globals;
    let count = fused.tasks.len() - at;
    if count > 1 {
        assert(task_above(fused, at, count - 1) == task_above(plain, plain_at, count - 1));
        assert(fused.top() == plain.top());
    } else {
        lemma_step_ignores_buffers(fused.top(), plain.top(), before, after, globals);
    }
    match task_step(plain.top(), globals) {
        Err(e) => {},
        Ok(next) => {
            let other = match task_step(fused.top(), globals) {
                Ok(other) => other,
                Err(_) => arbitrary(),
            };
            let plain_task = next.0;
            let fused_task = other.0;
            assert(other.1 == next.1);
            lemma_paired_with_top(
                fused,
                plain,
                at,
                plain_at,
                before,
                after,
                fused_task,
                plain_task,
            );
            match next.1 {
                StepResultView::Nothing => {},
                StepResultView::Call { callable, arguments, tail } => match tail {
                    TailStatusView::NotTail => {
                        lemma_paired_invoke(
                            fused.with_top(fused_task),
                            plain.with_top(plain_task),
                            at,
                            plain_at,
                            before,
                            after,
                            callable,
                            arguments,
                            Seq::empty(),
                            Seq::empty(),
                        );
                    },
                    TailStatusView::Tail { appends, prepends } => {
                        if count > 1 {
                            lemma_paired_pop(fused, plain, at, plain_at, before, after);
                            lemma_paired_invoke(
                                fused.pop_task(),
                                plain.pop_task(),
                                at,
                                plain_at,
                                before,
                                after,
                                callable,
                                arguments,
                                fused_prepend(plain_task, prepends),
                                fused_append(plain_task, appends),
                            );
                        } else {
                            let function = callable->Coded_0;
                            let plain_callee = new_task(
                                function,
                                arguments,
                                fused_prepend(plain_task, prepends),
                                fused_append(plain_task, appends),
                            )->Ok_0;
                            let fused_callee = new_task(
                                function,
                                arguments,
                                fused_prepend(fused_task, prepends),
                                fused_append(fused_task, appends),
                            )->Ok_0;
                            assert(fused_callee.prepend =~= before + plain_callee.prepend);
                            assert(fused_callee.append =~= plain_callee.append + after);
                            lemma_paired_with_top(
                                fused,
                                plain,
                                at,
                                plain_at,
                                before,
                                after,
                                fused_callee,
                                plain_callee,
                            );
                        }
                    },
                },
                StepResultView::FinishTask { return_value } => {
                    lemma_paired_pop(fused, plain, at, plain_at, before, after);
                    match finish_value(plain_task, return_value) {
                        Ok(value) => {
                            lemma_paired_deliver(
                                fused.pop_task(),
                                plain.pop_task(),
                                at,
                                plain_at,
                                before,
                                after,
                                Ok(value),
                            );
                        },
                        Err(_) => {},
                    }
                },
            }
        },
    }
}

/// When the paired task returns a bit string, the fused machine hands to
/// the task below it what the plain machine hands to the task below it,
/// with `before` in front and `after` behind.
pub proof fn lemma_paired_return<N>(
    fused: VmView<N>,
    plain: VmView<N>,
    at: int,
    plain_at: int,
    before: Seq<Bit>,
    after: Seq<Bit>,
)
    requires
        paired(fused, plain, at, plain_at, before, after),
        plain.tasks.len() == plain_at + 1,
        task_step(plain.top(), plain.globals) matches Ok(next) && next.1
            matches StepResultView::FinishTask { return_value } && return_value is BitString,
    ensures
        ({
            &&& task_step(plain.top(), plain.globals) matches Ok(next)
            &&& next.1 matches StepResultView::FinishTask { return_value }
            &&& finish_value(plain.top(), return_value) matches Ok(ValueView::BitString(returned))
            &&& vm_step(plain) == (Stepped::Done {
                vm: deliver(plain.pop_task(), Ok(ValueView::BitString(returned))).0,
                result: deliver(plain.pop_task(), Ok(ValueView::BitString(returned))).1,
            })
            &&& vm_step(fused) == (Stepped::Done {
                vm: deliver(
                    fused.pop_task(),
                    Ok(ValueView::BitString(before + returned + after)),
                ).0,
                result: deliver(
                    fused.pop_task(),
                    Ok(ValueView::BitString(before + returned + after)),
                ).1,
            })
        }),
{
    lemma_step_ignores_buffers(fused.top(), plain.top(), before, after, plain.globals);
    match task_step(plain.top(), plain.globals) {
        Ok(next) => match next.1 {
            StepResultView::FinishTask { return_value } => match return_value {
                ValueView::BitString(bits) => {
                    let returned = plain.top().prepend + bits + plain.top().append;
                    assert(fused.top().prepend + bits + fused.top().append =~= before + returned
                        + after);
                },
                _ => {},
            },
            _ => {},
        },
        Err(_) => {},
    }
}

/// A tail call of a compiled function with a fitting alternative leaves the
/// machine paired with any machine on which the same function has just been
/// called with the same arguments in the ordinary way: the bit strings of
/// the caller and of the call are what the callee carries more.
pub proof fn lemma_tail_call_pairs<N>(vm: VmView<N>, plain: VmView<N>)
    requires
        vm.tasks.len() > 0,
        vm.globals == plain.globals,
        task_step(vm.top(), vm.globals) matches Ok(next) && next.1 matches StepResultView::Call {
            callable: CallableView::Coded(function),
            arguments,
            tail: TailStatusView::Tail { .. },
        } && dispatch(function.variants, arguments) is Some,
    ensures
        ({
            &&& task_step(vm.top(), vm.globals) matches Ok(next)
            &&& next.1 matches StepResultView::Call {
                callable: CallableView::Coded(function),
                arguments,
                tail: TailStatusView::Tail { appends, prepends },
            }
            &&& vm_step(vm) matches Stepped::Done { vm: fused, result }
            &&& result is Ok
            &&& invoke_coded(plain, function, arguments, Seq::empty(), Seq::empty())
                matches Stepped::Done { vm: called, result: called_result }
            &&& called_result is Ok
            &&& paired(
                fused,
                called,
                vm.tasks.len() - 1,
                plain.tasks.len() as int,
                vm.top().prepend + concat_all(prepends),
                concat_all(appends) + vm.top().append,
            )
        }),
{
    match task_step(vm.top(), vm.globals) {
        Ok(next) => match next.1 {
            StepResultView::Call { callable, arguments, tail } => match tail {
                TailStatusView::Tail { appends, prepends } => {
                    let function = callable->Coded_0;
                    let before = vm.top().prepend + concat_all(prepends);
                    let after = concat_all(appends) + vm.top().append;
                    let fused = vm_step(vm)->Done_vm;
                    let called = invoke_coded(
                        plain,
                        function,
                        arguments,
                        Seq::empty(),
                        Seq::empty(),
                    )->Done_vm;
                    let at = vm.tasks.len() - 1;
                    let plain_at = plain.tasks.len() as int;
                    assert(next.0.prepend == vm.top().prepend);
                    assert(next.0.append == vm.top().append);
                    assert(fused.tasks[at].prepend =~= before + called.tasks[plain_at].prepend);
                    assert(fused.tasks[at].append =~= called.tasks[plain_at].append + after);
                },
                _ => {},
            },
            _ => {},
        },
        Err(_) => {},
    }
}

/// What a task that took the place of `task` at a tail call hands on when
/// it returns `bits` is what `task` would have handed on, had it got `bits`
/// back from an ordinary call and put the bit strings of the call round it.
pub proof fn lemma_fused_return<N>(
    task: TaskView<N>,
    callee: TaskView<N>,
    prepends: Seq<Seq<Bit>>,
    appends: Seq<Seq<Bit>>,
    bits: Seq<Bit>,
)
    requires
        callee.prepend == fused_prepend(task, prepends),
        callee.append == fused_append(task, appends),
    ensures
        finish_value(callee, ValueView::BitString(bits)) == finish_value(
            task,
            ValueView::BitString(concat_all(prepends) + bits + concat_all(appends)),
        ),
{
    assert(callee.prepend + bits + callee.append =~= task.prepend + (concat_all(prepends) + bits
        + concat_all(appends)) + task.append);
}

/// A tail call of a compiled function does not add a task: the task of the
/// callee takes the place of the caller, and the tasks below stay as they were.
pub proof fn lemma_tail_call_keeps_depth<N>(vm: VmView<N>)
    requires
        vm.tasks.len() > 0,
        task_step(vm.top(), vm.globals) matches Ok(next) && next.1 matches StepResultView::Call {
            callable,
            tail,
            ..
        } && callable is Coded && tail is Tail,
    ensures
        vm_step(vm) matches Stepped::Done { vm: after, result } && (result is Ok ==> after.tasks.len()
            == vm.tasks.len() && after.tasks.drop_last() == vm.tasks.drop_last()) && (result
            is Err ==> after == vm.pop_task()),
{
    match vm_step(vm) {
        Stepped::Done { vm: after, result } => {
            if result is Ok {
                assert(after.tasks.drop_last() =~= vm.tasks.drop_last());
            }
        },
        Stepped::Native { .. } => {},
    }
}

/// A tail call of a compiled function whose alternative fits puts the task
/// of the callee in the place of the caller; and whatever bit string that
/// task returns, it hands on what the caller was to put before its result,
/// the bit strings of the call that go before, the returned bits, the bit
/// strings of the call that go after, and what the caller was to put after.
pub proof fn lemma_tail_call_fuses<N>(vm: VmView<N>, bits: Seq<Bit>)
    requires
        vm.tasks.len() > 0,
        task_step(vm.top(), vm.globals) matches Ok(next) && next.1 matches StepResultView::Call {
            callable: CallableView::Coded(function),
            arguments,
            tail: TailStatusView::Tail { appends, prepends },
        } && new_task(
            function,
            arguments,
            fused_prepend(next.0, prepends),
            fused_append(next.0, appends),
        ) is Ok,
    ensures
        ({
            &&& vm_step(vm) matches Stepped::Done { vm: after, result }
            &&& result is Ok
            &&& after.tasks.len() == vm.tasks.len()
            &&& task_step(vm.top(), vm.globals) matches Ok(next)
            &&& next.1 matches StepResultView::Call {
                tail: TailStatusView::Tail { appends, prepends },
                ..
            }
            &&& finish_value(after.top(), ValueView::BitString(bits)) == Ok::<_, ExecErrorView<N>>(
                ValueView::<N>::BitString(
                    vm.top().prepend + concat_all(prepends) + bits + concat_all(appends)
                        + vm.top().append,
                ),
            )
        }),
{
    match task_step(vm.top(), vm.globals) {
        Ok(next) => match next.1 {
            StepResultView::Call { callable, arguments, tail } => match tail {
                TailStatusView::Tail { appends, prepends } => {
                    let callee = vm_step(vm)->Done_vm.top();
                    assert(callee.prepend == fused_prepend(next.0, prepends));
                    assert(next.0.prepend == vm.top().prepend);
                    assert(next.0.append == vm.top().append);
                    assert(callee.prepend + bits + callee.append =~= vm.top().prepend
                        + concat_all(prepends) + bits + concat_all(appends) + vm.top().append);
                },
                _ => {},
            },
            _ => {},
        },
        Err(_) => {},
    }
}

} // verus!
