//! The machine: tasks, the step loop and calls.
//!
//! A task is modelled by [`TaskView`], the machine by [`VmView`]. What one
//! step does to a task is the function [`task_step`]; what it does to the
//! machine is [`vm_step`]. The executable steps are proved against them.

use crate::bindings::{Bindings, Env};
use crate::bitstring::{concat_all, strings_view, Bit, BitString};
use crate::bytecode::{Bytecode, Instruction, InstructionView};
use crate::callable::{Callable, CallableView};
use crate::coded_function::{CodedFunction, CodedFunctionVariant, CodedFunctionView, VariantView};
use crate::native_function::{NativeFunctionView, NativeOperation};
use crate::pattern::{multi_match, PatternParseMulti};
use crate::value::{values_view, Value, ValueView};
use vstd::prelude::*;

verus! {


/// Why a step could not be made.
#[derive(Debug)]
pub enum ExecError<N> {
    /// No alternative of the function fits the arguments.
    NoMatch { func_name: String, args: Vec<Value<N>> },
    /// There is no task where one is needed.
    TaskStackEmpty,
    /// The value stack does not have the size that the machine expects.
    ValueStackSizeUnexpected { real: usize, expected: usize },
    /// A value was to be taken from an empty value stack.
    ValueStackEmpty,
    /// The name is bound neither locally nor globally.
    VariableNotFound { name: String },
    /// A callee is no callable.
    NotCallable,
    /// A part of a concatenation is no bit string.
    NotBitString,
}

/// The mathematical content of an [`ExecError`].
pub enum ExecErrorView<N> {
    NoMatch { func_name: Seq<char>, args: Seq<ValueView<N>> },
    TaskStackEmpty,
    ValueStackSizeUnexpected { real: nat, expected: nat },
    ValueStackEmpty,
    VariableNotFound { name: Seq<char> },
    NotCallable,
    NotBitString,
}

impl<N> View for ExecError<N> {
    type V = ExecErrorView<N>;

    open spec fn view(&self) -> ExecErrorView<N> {
        match self {
            ExecError::NoMatch { func_name, args } => ExecErrorView::NoMatch {
                func_name: func_name@,
                args: values_view(args@),
            },
            ExecError::TaskStackEmpty => ExecErrorView::TaskStackEmpty,
            ExecError::ValueStackSizeUnexpected { real: found, expected } => {
                ExecErrorView::ValueStackSizeUnexpected {
                    real: *found as nat,
                    expected: *expected as nat,
                }
            },
            ExecError::ValueStackEmpty => ExecErrorView::ValueStackEmpty,
            ExecError::VariableNotFound { name } => ExecErrorView::VariableNotFound { name: name@ },
            ExecError::NotCallable => ExecErrorView::NotCallable,
            ExecError::NotBitString => ExecErrorView::NotBitString,
        }
    }
}

/// What a step returns: its result, or why it could not be made.
pub type BasicExecResult<T, N> = Result<T, ExecError<N>>;

/// What a step of the machine returns.
pub type ExecResult<N> = Result<(), ExecError<N>>;

/// The content of what a step of the machine returns.
pub open spec fn result_view<N>(r: ExecResult<N>) -> Result<(), ExecErrorView<N>> {
    match r {
        Ok(_) => Ok(()),
        Err(e) => Err(e@),
    }
}

/// How a call is made: as an ordinary call, or in place of the calling task,
/// with bit strings to go before and after what the callee returns.
#[derive(Debug)]
pub enum TailStatus {
    NotTail,
    Tail { appends: Vec<BitString>, prepends: Vec<BitString> },
}

/// The mathematical content of a [`TailStatus`].
pub enum TailStatusView {
    NotTail,
    Tail { appends: Seq<Seq<Bit>>, prepends: Seq<Seq<Bit>> },
}

impl View for TailStatus {
    type V = TailStatusView;

    open spec fn view(&self) -> TailStatusView {
        match self {
            TailStatus::NotTail => TailStatusView::NotTail,
            TailStatus::Tail { appends, prepends } => TailStatusView::Tail {
                appends: strings_view(appends@),
                prepends: strings_view(prepends@),
            },
        }
    }
}

/// What a task asks of the machine after one step.
#[derive(Debug)]
pub enum StepResult<N> {
    /// Nothing: the task goes on.
    Nothing,
    /// The task is done and hands back this value.
    FinishTask { return_value: Value<N> },
    /// The callable is to be called with the arguments.
    Call { callable: Callable<N>, arguments: Vec<Value<N>>, tail: TailStatus },
}

/// The mathematical content of a [`StepResult`].
pub enum StepResultView<N> {
    Nothing,
    FinishTask { return_value: ValueView<N> },
    Call { callable: CallableView<N>, arguments: Seq<ValueView<N>>, tail: TailStatusView },
}

impl<N> View for StepResult<N> {
    type V = StepResultView<N>;

    open spec fn view(&self) -> StepResultView<N> {
        match self {
            StepResult::Nothing => StepResultView::Nothing,
            StepResult::FinishTask { return_value } => StepResultView::FinishTask {
                return_value: return_value@,
            },
            StepResult::Call { callable, arguments, tail } => StepResultView::Call {
                callable: callable@,
                arguments: values_view(arguments@),
                tail: tail@,
            },
        }
    }
}

/// The mathematical content of a task: its code, its local environment, its
/// value stack with the top last, the index of the next instruction, and the
/// bit strings that go before and after what it returns.
pub struct TaskView<N> {
    pub bytecode: Seq<InstructionView>,
    pub locals: Env<N>,
    pub stack: Seq<ValueView<N>>,
    pub cursor: nat,
    pub prepend: Seq<Bit>,
    pub append: Seq<Bit>,
}

impl<N> TaskView<N> {
    /// The task that is about to run `bytecode` from its start.
    pub open spec fn fresh(
        bytecode: Seq<InstructionView>,
        locals: Env<N>,
        prepend: Seq<Bit>,
        append: Seq<Bit>,
    ) -> Self {
        TaskView { bytecode, locals, stack: Seq::empty(), cursor: 0, prepend, append }
    }

    /// The task with another value stack.
    pub open spec fn with_stack(self, stack: Seq<ValueView<N>>) -> Self {
        TaskView { stack, ..self }
    }

    /// The task one instruction further, with another value stack.
    pub open spec fn advanced(self, stack: Seq<ValueView<N>>) -> Self {
        TaskView { stack, cursor: self.cursor + 1, ..self }
    }
}

/// What a task hands to the machine after a step, with the task as the step
/// leaves it; or the error, in which case the task stays as it was.
pub type StepOutcome<N> = Result<(TaskView<N>, StepResultView<N>), ExecErrorView<N>>;

/// What `name` stands for: the local binding where there is one, else the
/// global one, else nothing.
pub open spec fn resolve<N>(locals: Env<N>, globals: Env<N>, name: Seq<char>) -> Option<
    ValueView<N>,
> {
    if locals.contains_key(name) {
        Some(locals[name])
    } else if globals.contains_key(name) {
        Some(globals[name])
    } else {
        None
    }
}

/// Whether every one of the values is a bit string.
pub open spec fn all_bit_strings<N>(values: Seq<ValueView<N>>) -> bool {
    forall|i: int| 0 <= i < values.len() ==> (#[trigger] values[i]) is BitString
}

/// The bit strings that the values are, one by one.
pub open spec fn bit_strings_of<N>(values: Seq<ValueView<N>>) -> Seq<Seq<Bit>> {
    Seq::new(
        values.len(),
        |i: int|
            match values[i] {
                ValueView::BitString(bits) => bits,
                ValueView::Callable(_) => Seq::empty(),
            },
    )
}

/// The step at the end of the code: the one value on the stack is handed back.
pub open spec fn step_finish<N>(task: TaskView<N>) -> StepOutcome<N> {
    if task.stack.len() == 1 {
        Ok((task, StepResultView::FinishTask { return_value: task.stack[0] }))
    } else {
        Err(ExecErrorView::ValueStackSizeUnexpected { real: task.stack.len(), expected: 1 })
    }
}

/// The step `LoadVar`.
pub open spec fn step_load_var<N>(
    task: TaskView<N>,
    globals: Env<N>,
    name: Seq<char>,
    trampoline: bool,
) -> StepOutcome<N> {
    match resolve(task.locals, globals, name) {
        None => Err(ExecErrorView::VariableNotFound { name }),
        Some(value) => match value {
            ValueView::Callable(CallableView::Coded(f)) if trampoline
                && f.is_trampoline_callable() => Ok(
                (
                    task,
                    StepResultView::Call {
                        callable: CallableView::Coded(f),
                        arguments: Seq::empty(),
                        tail: TailStatusView::NotTail,
                    },
                ),
            ),
            _ => Ok((task.advanced(task.stack.push(value)), StepResultView::Nothing)),
        },
    }
}

/// The step `Call(n)`.
pub open spec fn step_call<N>(task: TaskView<N>, n: nat) -> StepOutcome<N> {
    let len = task.stack.len() as int;
    if len < n + 1 {
        Err(ExecErrorView::ValueStackEmpty)
    } else {
        match task.stack[len - n - 1] {
            ValueView::Callable(callable) => Ok(
                (
                    task.advanced(task.stack.subrange(0, len - n - 1)),
                    StepResultView::Call {
                        callable,
                        arguments: task.stack.subrange(len - n, len),
                        tail: TailStatusView::NotTail,
                    },
                ),
            ),
            ValueView::BitString(_) => Err(ExecErrorView::NotCallable),
        }
    }
}

/// The step `Cat(n)`.
pub open spec fn step_cat<N>(task: TaskView<N>, n: nat) -> StepOutcome<N> {
    let len = task.stack.len() as int;
    if len < n {
        Err(ExecErrorView::ValueStackEmpty)
    } else if !all_bit_strings(task.stack.subrange(len - n, len)) {
        Err(ExecErrorView::NotBitString)
    } else {
        let joined = concat_all(bit_strings_of(task.stack.subrange(len - n, len)));
        Ok(
            (
                task.advanced(task.stack.subrange(0, len - n).push(ValueView::BitString(joined))),
                StepResultView::Nothing,
            ),
        )
    }
}

/// The step `Tail { prepend, append }`. From the bottom the stack holds the
/// bit strings to go before, those to go after, the callee and its arguments.
pub open spec fn step_tail<N>(task: TaskView<N>, prepend: nat, append: nat) -> StepOutcome<N> {
    let len = task.stack.len() as int;
    let before = prepend as int;
    let fixed = before + append as int;
    if len < fixed + 1 {
        Err(ExecErrorView::ValueStackEmpty)
    } else {
        match task.stack[fixed] {
            ValueView::Callable(callable) => if !all_bit_strings(task.stack.subrange(0, fixed)) {
                Err(ExecErrorView::NotBitString)
            } else {
                Ok(
                    (
                        task.advanced(Seq::empty()),
                        StepResultView::Call {
                            callable,
                            arguments: task.stack.subrange(fixed + 1, len),
                            tail: TailStatusView::Tail {
                                appends: bit_strings_of(task.stack.subrange(before, fixed)),
                                prepends: bit_strings_of(task.stack.subrange(0, before)),
                            },
                        },
                    ),
                )
            },
            ValueView::BitString(_) => Err(ExecErrorView::NotCallable),
        }
    }
}

/// One step of a task.
pub open spec fn task_step<N>(task: TaskView<N>, globals: Env<N>) -> StepOutcome<N> {
    if task.cursor >= task.bytecode.len() {
        step_finish(task)
    } else {
        match task.bytecode[task.cursor as int] {
            InstructionView::LoadConst(bits) => Ok(
                (
                    task.advanced(task.stack.push(ValueView::BitString(bits))),
                    StepResultView::Nothing,
                ),
            ),
            InstructionView::LoadVar { name, trampoline } => step_load_var(
                task,
                globals,
                name,
                trampoline,
            ),
            InstructionView::Call(n) => step_call(task, n),
            InstructionView::Cat(n) => step_cat(task, n),
            InstructionView::Tail { prepend, append } => step_tail(task, prepend, append),
        }
    }
}

/// Whether the value is a bit string.
fn is_bit_string<N>(value: &Value<N>) -> (r: bool)
    ensures
        r == (value@ is BitString),
{
    match value {
        Value::BitString(_) => true,
        Value::Callable(_) => false,
    }
}

/// Whether each of the values from `from` up to, not including, `to` is a bit string.
fn bit_strings_between<N>(values: &Vec<Value<N>>, from: usize, to: usize) -> (r: bool)
    requires
        from <= to <= values.len(),
    ensures
        r == all_bit_strings(values_view(values@).subrange(from as int, to as int)),
{
    let ghost part = values_view(values@).subrange(from as int, to as int);
    let mut i: usize = from;
    while i < to
        invariant
            from <= i <= to <= values.len(),
            part == values_view(values@).subrange(from as int, to as int),
            forall|j: int| 0 <= j < i - from ==> (#[trigger] part[j]) is BitString,
        decreases to - i,
    {
        if !is_bit_string(&values[i]) {
            assert(part[i - from] == values[i as int]@);
            return false;
        }
        assert(part[i - from] == values[i as int]@);
        i += 1;
    }
    true
}

/// The bit strings that the values are, in their order.
fn into_bit_strings<N>(values: Vec<Value<N>>) -> (r: Vec<BitString>)
    requires
        all_bit_strings(values_view(values@)),
    ensures
        strings_view(r@) == bit_strings_of(values_view(values@)),
{
    let ghost all = values_view(values@);
    let mut out: Vec<BitString> = Vec::new();
    for value in it: values
        invariant
            all == values_view(it.seq()),
            all_bit_strings(all),
            out@.len() == it.index(),
            forall|j: int| 0 <= j < out@.len() ==> (#[trigger] out@[j])@ == bit_strings_of(all)[j],
    {
        assert(all[it.index() as int] == value@);
        if let Some(bits) = value.into_bit_string() {
            out.push(bits);
        }
    }
    assert(strings_view(out@) =~= bit_strings_of(all));
    out
}

/// The value stack of a task and the index of its next instruction.
#[derive(Debug)]
pub struct ExecutionState<N> {
    value_stack: Vec<Value<N>>,
    cursor: usize,
}

impl<N> ExecutionState<N> {
    /// The contents of the value stack, the top last.
    pub closed spec fn stack(&self) -> Seq<ValueView<N>> {
        values_view(self.value_stack@)
    }

    /// The index of the next instruction.
    pub closed spec fn position(&self) -> nat {
        self.cursor as nat
    }

    /// The state at the start of a task: no value, the first instruction next.
    pub fn new() -> (r: ExecutionState<N>)
        ensures
            r.stack() == Seq::<ValueView<N>>::empty(),
            r.position() == 0,
    {
        let r = ExecutionState { value_stack: Vec::new(), cursor: 0 };
        assert(r.stack() =~= Seq::<ValueView<N>>::empty());
        r
    }
}

/// One activation of a function.
#[verifier::reject_recursive_types(N)]
pub struct Task<N> {
    bytecode: Bytecode,
    local_bindings: Bindings<N>,
    execution_state: ExecutionState<N>,
    prepend: BitString,
    append: BitString,
}

impl<N> View for Task<N> {
    type V = TaskView<N>;

    closed spec fn view(&self) -> TaskView<N> {
        TaskView {
            bytecode: self.bytecode@,
            locals: self.local_bindings@,
            stack: self.execution_state.stack(),
            cursor: self.execution_state.position(),
            prepend: self.prepend@,
            append: self.append@,
        }
    }
}

impl<N: Copy> Task<N> {
    /// The task that is about to run `bytecode` from its start.
    pub fn new(
        bytecode: Bytecode,
        local_bindings: Bindings<N>,
        prepend: BitString,
        append: BitString,
    ) -> (r: Task<N>)
        ensures
            r@ == TaskView::fresh(bytecode@, local_bindings@, prepend@, append@),
    {
        Task {
            bytecode,
            local_bindings,
            execution_state: ExecutionState::new(),
            prepend,
            append,
        }
    }

    /// Makes one step: runs the instruction under the cursor, or hands back
    /// the result at the end of the code. Where the step fails, the task
    /// stays as it was.
    pub fn step(&mut self, global_bindings: &Bindings<N>) -> (r: BasicExecResult<StepResult<N>, N>)
        ensures
            match task_step(old(self)@, global_bindings@) {
                Ok(next) => r matches Ok(result) && result@ == next.1 && final(self)@ == next.0,
                Err(e) => r matches Err(err) && err@ == e && final(self)@ == old(self)@,
            },
    {
        let instruction = match self.current_instruction() {
            Some(x) => x.clone(),
            None => {
                return match self.return_value() {
                    Ok(return_value) => Ok(StepResult::FinishTask { return_value }),
                    Err(e) => Err(e),
                };
            },
        };
        match instruction {
            Instruction::LoadConst(bit_string) => {
                self.push(Value::BitString(bit_string));
                self.execution_state.cursor += 1;
                Ok(StepResult::Nothing)
            },
            Instruction::LoadVar { name, trampoline } => {
                let value = match self.get_var(name.as_str(), global_bindings) {
                    Some(v) => v,
                    None => {
                        return Err(ExecError::VariableNotFound { name });
                    },
                };
                match value {
                    Value::Callable(Callable::Coded(f)) => {
                        if trampoline && f.is_trampoline_callable() {
                            let arguments: Vec<Value<N>> = Vec::new();
                            assert(values_view(arguments@) =~= Seq::<ValueView<N>>::empty());
                            return Ok(
                                StepResult::Call {
                                    callable: Callable::Coded(f),
                                    arguments,
                                    tail: TailStatus::NotTail,
                                },
                            );
                        }
                        self.push(Value::Callable(Callable::Coded(f)));
                    },
                    other => {
                        self.push(other);
                    },
                }
                self.execution_state.cursor += 1;
                Ok(StepResult::Nothing)
            },
            Instruction::Call(num_args) => {
                let len: usize = self.execution_state.value_stack.len();
                if len <= num_args {
                    return Err(ExecError::ValueStackEmpty);
                }
                let at: usize = len - num_args - 1;
                if is_bit_string(&self.execution_state.value_stack[at]) {
                    assert(old(self)@.stack[at as int] == self.execution_state.value_stack[at as int]@);
                    return Err(ExecError::NotCallable);
                }
                assert(old(self)@.stack[at as int] == self.execution_state.value_stack[at as int]@);
                let arguments = self.pop_n_result(num_args)?;
                let callee = self.pop_result()?;
                let callable = match callee.into_callable() {
                    Some(c) => c,
                    None => {
                        return Err(ExecError::NotCallable);
                    },
                };
                self.execution_state.cursor += 1;
                assert(self@.stack =~= old(self)@.stack.subrange(0, len - num_args - 1));
                Ok(StepResult::Call { callable, arguments, tail: TailStatus::NotTail })
            },
            Instruction::Cat(num_children) => {
                let len: usize = self.execution_state.value_stack.len();
                if len < num_children {
                    return Err(ExecError::ValueStackEmpty);
                }
                if !bit_strings_between(&self.execution_state.value_stack, len - num_children, len) {
                    return Err(ExecError::NotBitString);
                }
                let children = self.pop_n_result(num_children)?;
                let strings = into_bit_strings(children);
                let bit_string = BitString::concat_all(&strings);
                self.push(Value::BitString(bit_string));
                self.execution_state.cursor += 1;
                Ok(StepResult::Nothing)
            },
            Instruction::Tail { prepend, append } => {
                let len: usize = self.execution_state.value_stack.len();
                let fixed: usize = match prepend.checked_add(append) {
                    Some(both) => match both.checked_add(1) {
                        Some(all) => all,
                        None => {
                            return Err(ExecError::ValueStackEmpty);
                        },
                    },
                    None => {
                        return Err(ExecError::ValueStackEmpty);
                    },
                };
                if len < fixed {
                    return Err(ExecError::ValueStackEmpty);
                }
                let num_args: usize = len - fixed;
                assert(old(self)@.stack[prepend + append]
                    == self.execution_state.value_stack[prepend + append]@);
                if is_bit_string(&self.execution_state.value_stack[prepend + append]) {
                    return Err(ExecError::NotCallable);
                }
                if !bit_strings_between(&self.execution_state.value_stack, 0, prepend + append) {
                    return Err(ExecError::NotBitString);
                }
                let ghost stack = old(self)@.stack;
                proof {
                    let both = stack.subrange(0, prepend + append);
                    assert forall|j: int| 0 <= j < append implies (#[trigger] stack.subrange(
                        prepend as int,
                        prepend + append,
                    )[j]) is BitString by {
                        assert(both[prepend + j] is BitString);
                    }
                    assert forall|j: int| 0 <= j < prepend implies (#[trigger] stack.subrange(
                        0,
                        prepend as int,
                    )[j]) is BitString by {
                        assert(both[j] is BitString);
                    }
                }
                let arguments = self.pop_n_result(num_args)?;
                let callee = self.pop_result()?;
                let callable = match callee.into_callable() {
                    Some(c) => c,
                    None => {
                        return Err(ExecError::NotCallable);
                    },
                };
                let after = self.pop_n_result(append)?;
                assert(values_view(after@) =~= stack.subrange(prepend as int, prepend + append));
                let appends = into_bit_strings(after);
                let before = self.pop_n_result(prepend)?;
                assert(values_view(before@) =~= stack.subrange(0, prepend as int));
                let prepends = into_bit_strings(before);
                assert(self@.stack.len() == self.execution_state.value_stack@.len());
                if self.execution_state.value_stack.len() != 0 {
                    return Err(
                        ExecError::ValueStackSizeUnexpected {
                            real: self.execution_state.value_stack.len(),
                            expected: 0,
                        },
                    );
                }
                self.execution_state.cursor += 1;
                assert(self@.stack =~= Seq::<ValueView<N>>::empty());
                assert(values_view(arguments@) =~= stack.subrange(prepend + append + 1, len as int));
                Ok(
                    StepResult::Call {
                        callable,
                        arguments,
                        tail: TailStatus::Tail { prepends, appends },
                    },
                )
            },
        }
    }

    /// The instruction under the cursor; nothing at the end of the code.
    fn current_instruction(&self) -> (r: Option<&Instruction>)
        ensures
            self@.cursor < self@.bytecode.len() ==> (r matches Some(i) && i@
                == self@.bytecode[self@.cursor as int]),
            self@.cursor >= self@.bytecode.len() ==> r is None,
            self@.bytecode.len() <= usize::MAX,
    {
        self.bytecode.at(self.execution_state.cursor)
    }

    /// What the task hands back at its end: the one value on its stack.
    fn return_value(&self) -> (r: BasicExecResult<Value<N>, N>)
        ensures
            match step_finish(self@) {
                Ok(next) => r matches Ok(v) && StepResultView::FinishTask { return_value: v@ }
                    == next.1,
                Err(e) => r matches Err(err) && err@ == e,
            },
    {
        let stack = &self.execution_state.value_stack;
        if stack.len() == 1 {
            let value = stack[0].clone();
            assert(self@.stack[0] == stack[0]@);
            Ok(value)
        } else {
            Err(ExecError::ValueStackSizeUnexpected { real: stack.len(), expected: 1 })
        }
    }

    /// What `name` stands for, locally first, globally second.
    fn get_var(&self, name: &str, global_bindings: &Bindings<N>) -> (r: Option<Value<N>>)
        ensures
            match resolve(self@.locals, global_bindings@, name@) {
                Some(v) => r matches Some(found) && found@ == v,
                None => r is None,
            },
    {
        match self.local_bindings.get_value(name) {
            Some(v) => Some(v.clone()),
            None => match global_bindings.get_value(name) {
                Some(v) => Some(v.clone()),
                None => None,
            },
        }
    }

    /// Puts `value` on top of the value stack.
    pub fn push(&mut self, value: Value<N>)
        ensures
            final(self)@ == old(self)@.with_stack(old(self)@.stack.push(value@)),
    {
        self.execution_state.value_stack.push(value);
        assert(self@.stack =~= old(self)@.stack.push(value@));
    }

    /// Takes the top of the value stack; nothing where the stack is empty.
    fn pop(&mut self) -> (r: Option<Value<N>>)
        ensures
            old(self)@.stack.len() > 0 ==> (r matches Some(v) && v@ == old(self)@.stack.last()
                && final(self)@ == old(self)@.with_stack(old(self)@.stack.drop_last())),
            old(self)@.stack.len() == 0 ==> r is None && final(self)@ == old(self)@,
    {
        let ghost before = self.execution_state.value_stack@;
        let r = self.execution_state.value_stack.pop();
        proof {
            if before.len() > 0 {
                assert(values_view(before).last() == before.last()@);
                assert(self@.stack =~= old(self)@.stack.drop_last());
            }
        }
        r
    }

    /// Takes the top of the value stack.
    fn pop_result(&mut self) -> (r: BasicExecResult<Value<N>, N>)
        ensures
            old(self)@.stack.len() > 0 ==> (r matches Ok(v) && v@ == old(self)@.stack.last()
                && final(self)@ == old(self)@.with_stack(old(self)@.stack.drop_last())),
            old(self)@.stack.len() == 0 ==> (r matches Err(e) && e@
                == ExecErrorView::<N>::ValueStackEmpty && final(self)@ == old(self)@),
    {
        match self.pop() {
            Some(v) => Ok(v),
            None => Err(ExecError::ValueStackEmpty),
        }
    }

    /// Takes the top `n` values off the value stack, in the order in which
    /// they were pushed; nothing where the stack holds fewer.
    fn pop_n(&mut self, n: usize) -> (r: Option<Vec<Value<N>>>)
        ensures
            n <= old(self)@.stack.len() ==> (r matches Some(values) && values_view(values@)
                == old(self)@.stack.subrange(
                old(self)@.stack.len() - n,
                old(self)@.stack.len() as int,
            ) && final(self)@ == old(self)@.with_stack(
                old(self)@.stack.subrange(0, old(self)@.stack.len() - n),
            )),
            n > old(self)@.stack.len() ==> r is None && final(self)@ == old(self)@,
    {
        let len: usize = self.execution_state.value_stack.len();
        if len < n {
            return None;
        }
        let num_remaining_items: usize = len - n;
        let values = self.execution_state.value_stack.split_off(num_remaining_items);
        assert(values_view(values@) =~= old(self)@.stack.subrange(len - n, len as int));
        assert(self@.stack =~= old(self)@.stack.subrange(0, len - n));
        Some(values)
    }

    /// Takes the top `n` values off the value stack, in the order in which
    /// they were pushed.
    fn pop_n_result(&mut self, n: usize) -> (r: BasicExecResult<Vec<Value<N>>, N>)
        ensures
            n <= old(self)@.stack.len() ==> (r matches Ok(values) && values_view(values@)
                == old(self)@.stack.subrange(
                old(self)@.stack.len() - n,
                old(self)@.stack.len() as int,
            ) && final(self)@ == old(self)@.with_stack(
                old(self)@.stack.subrange(0, old(self)@.stack.len() - n),
            )),
            n > old(self)@.stack.len() ==> (r matches Err(e) && e@
                == ExecErrorView::<N>::ValueStackEmpty && final(self)@ == old(self)@),
    {
        match self.pop_n(n) {
            Some(values) => Ok(values),
            None => Err(ExecError::ValueStackEmpty),
        }
    }
}

/// The least index from `from` on whose alternative fits the arguments.
pub open spec fn first_fit<N>(variants: Seq<VariantView>, args: Seq<ValueView<N>>, from: int) -> Option<
    int,
>
    decreases variants.len() - from,
{
    if from < 0 || from >= variants.len() {
        None
    } else if multi_match(variants[from].patterns, args) is Some {
        Some(from)
    } else {
        first_fit(variants, args, from + 1)
    }
}

/// The alternative that a call commits to: the first, in the order of
/// declaration, whose patterns fit the arguments.
pub open spec fn dispatch<N>(variants: Seq<VariantView>, args: Seq<ValueView<N>>) -> Option<int> {
    first_fit(variants, args, 0)
}

/// The task that a call of `function` starts, or the error where no
/// alternative fits.
pub open spec fn new_task<N>(
    function: CodedFunctionView,
    args: Seq<ValueView<N>>,
    prepend: Seq<Bit>,
    append: Seq<Bit>,
) -> Result<TaskView<N>, ExecErrorView<N>> {
    match dispatch(function.variants, args) {
        Some(i) => Ok(
            TaskView::fresh(
                function.variants[i].body,
                multi_match(function.variants[i].patterns, args).unwrap(),
                prepend,
                append,
            ),
        ),
        None => Err(ExecErrorView::NoMatch { func_name: function.name, args }),
    }
}

/// Starts a task for a call of `coded_function`: tries its alternatives in
/// their order and commits to the first whose patterns fit `arguments`.
pub fn make_task<N: Copy>(
    coded_function: CodedFunction,
    arguments: Vec<Value<N>>,
    prepend: BitString,
    append: BitString,
) -> (r: BasicExecResult<Task<N>, N>)
    ensures
        match new_task(coded_function@, values_view(arguments@), prepend@, append@) {
            Ok(task) => r matches Ok(made) && made@ == task,
            Err(e) => r matches Err(err) && err@ == e,
        },
{
    let ghost function = coded_function@;
    let ghost args = values_view(arguments@);
    let name = coded_function.name;
    let mut variants = coded_function.variants;
    let mut i: usize = 0;
    while i < variants.len()
        invariant
            i <= variants.len(),
            function == coded_function@,
            args == values_view(arguments@),
            variants@.map_values(|v: CodedFunctionVariant| v@) == function.variants,
            dispatch(function.variants, args) == first_fit(function.variants, args, i as int),
        decreases variants.len() - i,
    {
        let attempt = arguments.clone();
        assert(values_view(attempt@) =~= args);
        assert(function.variants[i as int] == variants[i as int]@);
        match variants[i].patterns.parse(attempt) {
            Some(local_bindings) => {
                let var = variants.swap_remove(i);
                return Ok(Task::new(var.body, local_bindings, prepend, append));
            },
            None => {},
        }
        i += 1;
    }
    Err(ExecError::NoMatch { func_name: name, args: arguments })
}

/// The mathematical content of the machine: the global environment and the
/// tasks, the running one last.
pub struct VmView<N> {
    pub globals: Env<N>,
    pub tasks: Seq<TaskView<N>>,
}

impl<N> VmView<N> {
    /// The running task.
    pub open spec fn top(self) -> TaskView<N> {
        self.tasks.last()
    }

    /// The machine with `task` in place of the running task.
    pub open spec fn with_top(self, task: TaskView<N>) -> Self {
        VmView { tasks: self.tasks.drop_last().push(task), ..self }
    }

    /// The machine with `task` started on top.
    pub open spec fn push_task(self, task: TaskView<N>) -> Self {
        VmView { tasks: self.tasks.push(task), ..self }
    }

    /// The machine without its running task.
    pub open spec fn pop_task(self) -> Self {
        VmView { tasks: self.tasks.drop_last(), ..self }
    }
}

/// The machine after an operation, with what the operation returns.
pub type MachineOutcome<N> = (VmView<N>, Result<(), ExecErrorView<N>>);

/// The content of what a host routine returns.
pub open spec fn outcome_view<N>(outcome: BasicExecResult<Value<N>, N>) -> Result<
    ValueView<N>,
    ExecErrorView<N>,
> {
    match outcome {
        Ok(v) => Ok(v@),
        Err(e) => Err(e@),
    }
}

/// What an operation of the machine comes to.
pub enum Stepped<N> {
    /// The operation is made: the machine after it, and what it returns.
    Done { vm: VmView<N>, result: Result<(), ExecErrorView<N>> },
    /// The operation calls a host routine with these arguments; handing what
    /// the routine returns to `vm` by [`deliver`] completes it.
    Native { vm: VmView<N>, function: NativeFunctionView<N>, arguments: Seq<ValueView<N>> },
}

/// Calling a compiled function: its task is started on top of the others.
pub open spec fn invoke_coded<N>(
    vm: VmView<N>,
    function: CodedFunctionView,
    args: Seq<ValueView<N>>,
    prepend: Seq<Bit>,
    append: Seq<Bit>,
) -> Stepped<N> {
    match new_task(function, args, prepend, append) {
        Ok(task) => Stepped::Done { vm: vm.push_task(task), result: Ok(()) },
        Err(e) => Stepped::Done { vm, result: Err(e) },
    }
}

/// Handing over what a host routine returned: its error ends the operation;
/// its value goes on the value stack of the running task.
pub open spec fn deliver<N>(
    vm: VmView<N>,
    outcome: Result<ValueView<N>, ExecErrorView<N>>,
) -> MachineOutcome<N> {
    match outcome {
        Err(e) => (vm, Err(e)),
        Ok(value) => if vm.tasks.len() == 0 {
            (vm, Err(ExecErrorView::TaskStackEmpty))
        } else {
            (vm.with_top(vm.top().with_stack(vm.top().stack.push(value))), Ok(()))
        },
    }
}

/// Calling a callable.
pub open spec fn invoke_plan<N>(
    vm: VmView<N>,
    callable: CallableView<N>,
    args: Seq<ValueView<N>>,
    prepend: Seq<Bit>,
    append: Seq<Bit>,
) -> Stepped<N> {
    match callable {
        CallableView::Coded(function) => invoke_coded(vm, function, args, prepend, append),
        CallableView::Native(function) => Stepped::Native { vm, function, arguments: args },
    }
}

/// Calling what `name` stands for globally.
pub open spec fn invoke_by_name_plan<N>(
    vm: VmView<N>,
    name: Seq<char>,
    args: Seq<ValueView<N>>,
) -> Stepped<N> {
    if !vm.globals.contains_key(name) {
        Stepped::Done { vm, result: Err(ExecErrorView::VariableNotFound { name }) }
    } else {
        match vm.globals[name] {
            ValueView::Callable(callable) => invoke_plan(
                vm,
                callable,
                args,
                Seq::empty(),
                Seq::empty(),
            ),
            ValueView::BitString(_) => Stepped::Done {
                vm,
                result: Err(ExecErrorView::NotCallable),
            },
        }
    }
}

/// What a finished task hands to its caller: a bit string between what the
/// task was to put before and after it; a callable only as it is.
pub open spec fn finish_value<N>(task: TaskView<N>, return_value: ValueView<N>) -> Result<
    ValueView<N>,
    ExecErrorView<N>,
> {
    match return_value {
        ValueView::BitString(bits) => Ok(ValueView::BitString(task.prepend + bits + task.append)),
        ValueView::Callable(c) => if task.prepend.len() == 0 && task.append.len() == 0 {
            Ok(ValueView::Callable(c))
        } else {
            Err(ExecErrorView::NotBitString)
        },
    }
}

/// The task that takes the place of `task` at a tail call: what `task` was
/// to put before and after its result, and the bit strings of the call, go
/// to the callee.
pub open spec fn fused_prepend<N>(task: TaskView<N>, prepends: Seq<Seq<Bit>>) -> Seq<Bit> {
    task.prepend + concat_all(prepends)
}

/// See [`fused_prepend`].
pub open spec fn fused_append<N>(task: TaskView<N>, appends: Seq<Seq<Bit>>) -> Seq<Bit> {
    concat_all(appends) + task.append
}

/// One step of the machine: one step of the running task, and what the
/// machine does about its result.
pub open spec fn vm_step<N>(vm: VmView<N>) -> Stepped<N> {
    if vm.tasks.len() == 0 {
        Stepped::Done { vm, result: Err(ExecErrorView::TaskStackEmpty) }
    } else {
        match task_step(vm.top(), vm.globals) {
            Err(e) => Stepped::Done { vm, result: Err(e) },
            Ok(next) => {
                let task = next.0;
                match next.1 {
                    StepResultView::Nothing => Stepped::Done { vm: vm.with_top(task), result: Ok(()) },
                    StepResultView::Call { callable, arguments, tail } => match tail {
                        TailStatusView::NotTail => invoke_plan(
                            vm.with_top(task),
                            callable,
                            arguments,
                            Seq::empty(),
                            Seq::empty(),
                        ),
                        TailStatusView::Tail { appends, prepends } => invoke_plan(
                            vm.pop_task(),
                            callable,
                            arguments,
                            fused_prepend(task, prepends),
                            fused_append(task, appends),
                        ),
                    },
                    StepResultView::FinishTask { return_value } => match finish_value(
                        task,
                        return_value,
                    ) {
                        Err(e) => Stepped::Done { vm: vm.pop_task(), result: Err(e) },
                        Ok(value) => {
                            let after = deliver(vm.pop_task(), Ok(value));
                            Stepped::Done { vm: after.0, result: after.1 }
                        },
                    },
                }
            },
        }
    }
}

/// Whether handing `outcome` to `vm` leaves the machine `after` and returns `result`.
pub open spec fn delivered<N>(
    vm: VmView<N>,
    outcome: Result<ValueView<N>, ExecErrorView<N>>,
    after: VmView<N>,
    result: Result<(), ExecErrorView<N>>,
) -> bool {
    deliver(vm, outcome) == (after, result)
}

/// Whether `outcome` is the content of something that the host routine of
/// `function` may return when called with arguments of the content `arguments`.
pub open spec fn native_returns<N: NativeOperation>(
    function: NativeFunctionView<N>,
    arguments: Seq<ValueView<N>>,
    outcome: Result<ValueView<N>, ExecErrorView<N>>,
) -> bool {
    exists|args: Vec<Value<N>>, returned: BasicExecResult<Value<N>, N>|
        values_view(args@) == arguments && outcome_view(returned) == outcome && #[trigger] call_ensures(
            N::call,
            (&function.func, args),
            returned,
        )
}

/// Whether the host routine of `function`, called with `arguments`, may
/// return something that, handed to `vm`, leaves the machine `after` and
/// returns `result`.
pub open spec fn delivered_some<N: NativeOperation>(
    vm: VmView<N>,
    function: NativeFunctionView<N>,
    arguments: Seq<ValueView<N>>,
    after: VmView<N>,
    result: Result<(), ExecErrorView<N>>,
) -> bool {
    exists|outcome: Result<ValueView<N>, ExecErrorView<N>>|
        native_returns(function, arguments, outcome) && #[trigger] delivered(
            vm,
            outcome,
            after,
            result,
        )
}

/// Whether the machine and the result are what `stepped` says: exactly so
/// where nothing is left to a host routine; and where one is called, as
/// [`deliver`] says of something that the routine may return for the
/// arguments that `stepped` names.
pub open spec fn agrees<N: NativeOperation>(
    stepped: Stepped<N>,
    after: VmView<N>,
    result: Result<(), ExecErrorView<N>>,
) -> bool {
    match stepped {
        Stepped::Done { vm, result: expected } => after == vm && result == expected,
        Stepped::Native { vm, function, arguments } => delivered_some(
            vm,
            function,
            arguments,
            after,
            result,
        ),
    }
}

/// The contents of a list of tasks, one by one.
pub open spec fn tasks_view<N>(tasks: Seq<Task<N>>) -> Seq<TaskView<N>> {
    tasks.map_values(|t: Task<N>| t@)
}

/// The machine.
#[verifier::reject_recursive_types(N)]
pub struct VM<N> {
    global_bindings: Bindings<N>,
    task_stack: Vec<Task<N>>,
}

impl<N> View for VM<N> {
    type V = VmView<N>;

    closed spec fn view(&self) -> VmView<N> {
        VmView { globals: self.global_bindings@, tasks: tasks_view(self.task_stack@) }
    }
}

impl<N: NativeOperation> VM<N> {
    /// The machine with the given global environment and no task.
    pub fn new(global_bindings: Bindings<N>) -> (r: VM<N>)
        ensures
            r@ == (VmView { globals: global_bindings@, tasks: Seq::empty() }),
    {
        let r = VM { global_bindings, task_stack: Vec::new() };
        assert(r@.tasks =~= Seq::<TaskView<N>>::empty());
        r
    }

    /// How many tasks there are.
    pub fn depth(&self) -> (r: usize)
        ensures
            r == self@.tasks.len(),
    {
        self.task_stack.len()
    }

    /// The value on top of the value stack of the running task; nothing
    /// where no task runs or its stack is empty.
    pub fn peek(&self) -> (r: Option<Value<N>>)
        ensures
            match r {
                Some(v) => self@.tasks.len() > 0 && self@.top().stack.len() > 0 && v@
                    == self@.top().stack.last(),
                None => self@.tasks.len() == 0 || self@.top().stack.len() == 0,
            },
    {
        let depth: usize = self.task_stack.len();
        if depth == 0 {
            return None;
        }
        let task = &self.task_stack[depth - 1];
        assert(self@.top() == task@);
        let size: usize = task.execution_state.value_stack.len();
        if size == 0 {
            return None;
        }
        let value = task.execution_state.value_stack[size - 1].clone();
        assert(task@.stack.last() == task.execution_state.value_stack[size - 1]@);
        Some(value)
    }

    /// Calls what `name` stands for globally, with nothing to go before or
    /// after its result.
    pub fn invoke_by_name(&mut self, name: &str, arguments: Vec<Value<N>>) -> (r: ExecResult<N>)
        ensures
            agrees(
                invoke_by_name_plan(old(self)@, name@, values_view(arguments@)),
                final(self)@,
                result_view(r),
            ),
    {
        let callable = match self.global_bindings.get_value(name) {
            Some(value) => match value.clone().into_callable() {
                Some(c) => c,
                None => {
                    return Err(ExecError::NotCallable);
                },
            },
            None => {
                return Err(ExecError::VariableNotFound { name: name.to_owned() });
            },
        };
        self.invoke(callable, arguments, BitString::empty(), BitString::empty())
    }

    /// Calls `callable`. A compiled function gets a task of its own, which
    /// will put `prepend` before and `append` after its result. A host routine
    /// is run at once and its value put on the value stack of the running task.
    pub fn invoke(
        &mut self,
        callable: Callable<N>,
        arguments: Vec<Value<N>>,
        prepend: BitString,
        append: BitString,
    ) -> (r: ExecResult<N>)
        ensures
            agrees(
                invoke_plan(old(self)@, callable@, values_view(arguments@), prepend@, append@),
                final(self)@,
                result_view(r),
            ),
    {
        match callable {
            Callable::Coded(coded_function) => {
                match make_task(coded_function, arguments, prepend, append) {
                    Ok(task) => {
                        self.task_stack.push(task);
                        assert(self@.tasks =~= old(self)@.tasks.push(task@));
                        assert(self@ == old(self)@.push_task(task@));
                        Ok(())
                    },
                    Err(e) => {
                        assert(self@ == old(self)@);
                        Err(e)
                    },
                }
            },
            Callable::Native(native_function) => {
                let outcome = native_function.func.call(arguments);
                let r = self.deliver(outcome);
                assert(native_function@.func == native_function.func);
                assert(call_ensures(N::call, (&native_function@.func, arguments), outcome));
                assert(native_returns(
                    native_function@,
                    values_view(arguments@),
                    outcome_view(outcome),
                ));
                assert(delivered(old(self)@, outcome_view(outcome), self@, result_view(r)));
                r
            },
        }
    }

    /// Hands over what a host routine returned: its error is passed on; its
    /// value goes on the value stack of the running task.
    pub fn deliver(&mut self, outcome: BasicExecResult<Value<N>, N>) -> (r: ExecResult<N>)
        ensures
            (final(self)@, result_view(r)) == deliver(old(self)@, outcome_view(outcome)),
    {
        let value = match outcome {
            Ok(v) => v,
            Err(e) => {
                return Err(e);
            },
        };
        let mut task = match self.task_stack.pop() {
            Some(t) => t,
            None => {
                assert(self@.tasks =~= old(self)@.tasks);
                return Err(ExecError::TaskStackEmpty);
            },
        };
        assert(task@ == old(self)@.top());
        task.push(value);
        self.task_stack.push(task);
        assert(self@.tasks =~= old(self)@.tasks.drop_last().push(task@));
        Ok(())
    }

    /// Makes one step: a step of the running task, and what its result asks for.
    pub fn step(&mut self) -> (r: ExecResult<N>)
        ensures
            agrees(vm_step(old(self)@), final(self)@, result_view(r)),
    {
        let mut current_task = match self.task_stack.pop() {
            Some(t) => t,
            None => {
                assert(self@.tasks =~= old(self)@.tasks);
                return Err(ExecError::TaskStackEmpty);
            },
        };
        assert(current_task@ == old(self)@.top());
        assert(self@ == old(self)@.pop_task()) by {
            assert(self@.tasks =~= old(self)@.tasks.drop_last());
        }
        let step_result = match current_task.step(&self.global_bindings) {
            Ok(result) => result,
            Err(e) => {
                self.task_stack.push(current_task);
                assert(self@.tasks =~= old(self)@.tasks);
                return Err(e);
            },
        };
        match step_result {
            StepResult::Nothing => {
                self.task_stack.push(current_task);
                assert(self@.tasks =~= old(self)@.tasks.drop_last().push(current_task@));
                Ok(())
            },
            StepResult::Call { callable, arguments, tail } => match tail {
                TailStatus::NotTail => {
                    self.task_stack.push(current_task);
                    assert(self@.tasks =~= old(self)@.tasks.drop_last().push(current_task@));
                    self.invoke(callable, arguments, BitString::empty(), BitString::empty())
                },
                TailStatus::Tail { prepends, appends } => {
                    let before = BitString::concat_all(&prepends);
                    let after = BitString::concat_all(&appends);
                    let prepend = current_task.prepend.concat(&before);
                    let append = after.concat(&current_task.append);
                    self.invoke(callable, arguments, prepend, append)
                },
            },
            StepResult::FinishTask { return_value } => {
                let pushed_value = match return_value {
                    Value::BitString(s) => Value::BitString(
                        current_task.prepend.concat(&s).concat(&current_task.append),
                    ),
                    Value::Callable(c) => {
                        if !current_task.prepend.is_empty() || !current_task.append.is_empty() {
                            return Err(ExecError::NotBitString);
                        }
                        Value::Callable(c)
                    },
                };
                self.deliver(Ok(pushed_value))
            },
        }
    }
}

proof fn lemma_first_fit<N>(variants: Seq<VariantView>, args: Seq<ValueView<N>>, from: int)
    requires
        0 <= from <= variants.len(),
    ensures
        match first_fit(variants, args, from) {
            Some(i) => from <= i < variants.len() && multi_match(variants[i].patterns, args)
                is Some && forall|j: int|
                from <= j < i ==> multi_match((#[trigger] variants[j]).patterns, args) is None,
            None => forall|j: int|
                from <= j < variants.len() ==> multi_match((#[trigger] variants[j]).patterns, args)
                    is None,
        },
    decreases variants.len() - from,
{
    if from < variants.len() && multi_match(variants[from].patterns, args) is None {
        lemma_first_fit(variants, args, from + 1);
    }
}

/// Dispatch commits to the alternative of lowest index that fits the
/// arguments, and to no other: an index is chosen exactly if its alternative
/// fits and none before it does, and none is chosen exactly if none fits.
pub proof fn lemma_dispatch_lowest<N>(variants: Seq<VariantView>, args: Seq<ValueView<N>>)
    ensures
        forall|i: int|
            dispatch(variants, args) == Some(i) <==> (0 <= i < variants.len() && multi_match(
                (#[trigger] variants[i]).patterns,
                args,
            ) is Some && forall|j: int|
                0 <= j < i ==> multi_match((#[trigger] variants[j]).patterns, args) is None),
        dispatch(variants, args) is None <==> forall|j: int|
            0 <= j < variants.len() ==> multi_match((#[trigger] variants[j]).patterns, args)
                is None,
{
    lemma_first_fit(variants, args, 0);
    assert forall|i: int|
        (0 <= i < variants.len() && multi_match((#[trigger] variants[i]).patterns, args) is Some
            && forall|j: int|
            0 <= j < i ==> multi_match((#[trigger] variants[j]).patterns, args)
                is None) implies dispatch(variants, args) == Some(i) by {
        match dispatch(variants, args) {
            Some(k) => {
                if k < i {
                    assert(multi_match(variants[k].patterns, args) is None);
                } else if i < k {
                    assert(multi_match(variants[i].patterns, args) is None);
                }
            },
            None => {
                assert(multi_match(variants[i].patterns, args) is None);
            },
        }
    }
}

/// Loading, with `trampoline` set, a name that stands for a compiled
/// function with an alternative that takes no argument asks for the call
/// that `Call(0)` asks for with that function on top of the stack, and leaves
/// the same values behind.
pub proof fn lemma_trampoline_is_call<N>(
    task: TaskView<N>,
    globals: Env<N>,
    name: Seq<char>,
    function: CodedFunctionView,
)
    requires
        task.cursor < task.bytecode.len(),
        task.bytecode[task.cursor as int] == (InstructionView::LoadVar { name, trampoline: true }),
        resolve(task.locals, globals, name) == Some(
            ValueView::Callable(CallableView::<N>::Coded(function)),
        ),
        function.is_trampoline_callable(),
    ensures
        task_step(task, globals) matches Ok(loaded) && step_call(
            task.with_stack(task.stack.push(ValueView::Callable(CallableView::Coded(function)))),
            0,
        ) matches Ok(called) && loaded.1 == called.1 && loaded.0.stack == called.0.stack
            && loaded.1 == (StepResultView::Call {
            callable: CallableView::<N>::Coded(function),
            arguments: Seq::empty(),
            tail: TailStatusView::NotTail,
        }) && loaded.0 == task,
{
    let pushed = task.stack.push(ValueView::Callable(CallableView::<N>::Coded(function)));
    let len = pushed.len() as int;
    assert(pushed[len - 1] == ValueView::Callable(CallableView::<N>::Coded(function)));
    assert(pushed.subrange(0, len - 1) =~= task.stack);
    assert(pushed.subrange(len, len) =~= Seq::<ValueView<N>>::empty());
}

/// For the machine, such a load is the call of that function with no
/// argument: the step starts its task on top of the others, which stay as
/// they were, or fails as that call fails.
pub proof fn lemma_trampoline_invokes<N>(vm: VmView<N>, name: Seq<char>, function: CodedFunctionView)
    requires
        vm.tasks.len() > 0,
        vm.top().cursor < vm.top().bytecode.len(),
        vm.top().bytecode[vm.top().cursor as int] == (InstructionView::LoadVar {
            name,
            trampoline: true,
        }),
        resolve(vm.top().locals, vm.globals, name) == Some(
            ValueView::Callable(CallableView::<N>::Coded(function)),
        ),
        function.is_trampoline_callable(),
    ensures
        vm_step(vm) == invoke_coded(vm, function, Seq::empty(), Seq::empty(), Seq::empty()),
{
    assert(vm.with_top(vm.top()).tasks =~= vm.tasks);
}

} // verus!
