use bitmachine::ast::{Expr, Function, FunctionVariant, Program};
use bitmachine::bindings::Bindings;
use bitmachine::bitstring::{Bit, BitString};
use bitmachine::bytecode::{Bytecode, Instruction};
use bitmachine::callable::Callable;
use bitmachine::coded_function::{CodedFunction, CodedFunctionVariant};
use bitmachine::native_function::{NativeFunction, NativeOperation};
use bitmachine::pattern::{
    ConstLenPattern, ConstLenPatternElement, MultiPattern, Pattern, VarLenPattern,
};
use bitmachine::translator::Compile;
use bitmachine::value::Value;
use bitmachine::vm::{make_task, ExecError, ExecutionState, StepResult, TailStatus, Task, VM};

#[derive(Clone, Copy, Debug, PartialEq)]
enum Host {
    /// Hands back how many arguments it got, as that many `1` bits.
    Count,
    /// Hands back its first argument.
    First,
    /// Always fails.
    Fail,
}

impl NativeOperation for Host {
    fn call(&self, args: Vec<Value<Host>>) -> Result<Value<Host>, ExecError<Host>> {
        match self {
            Host::Count => Ok(Value::BitString(BitString::from_bits(&vec![Bit::One; args.len()]))),
            Host::First => match args.into_iter().next() {
                Some(first) => Ok(first),
                None => Err(ExecError::NoMatch { func_name: String::from("first"), args: vec![] }),
            },
            Host::Fail => Err(ExecError::NotBitString),
        }
    }
}

fn bits(text: &str) -> BitString {
    BitString::from_str(text).unwrap()
}

fn value(text: &str) -> Value<Host> {
    Value::BitString(bits(text))
}

fn native(op: Host, name: &str) -> Callable<Host> {
    Callable::Native(NativeFunction { func: op, name: String::from(name) })
}

fn coded(name: &str, variants: Vec<(Vec<Pattern>, Vec<Instruction>)>) -> CodedFunction {
    CodedFunction {
        name: String::from(name),
        variants: variants
            .into_iter()
            .map(|(patterns, code)| CodedFunctionVariant {
                patterns: MultiPattern(patterns),
                body: Bytecode::new(code),
            })
            .collect(),
    }
}

fn constant(name: &str, text: &str) -> CodedFunction {
    coded(name, vec![(vec![], vec![load(text)])])
}

fn load(text: &str) -> Instruction {
    Instruction::LoadConst(bits(text))
}

fn load_var(name: &str, trampoline: bool) -> Instruction {
    Instruction::LoadVar { name: String::from(name), trampoline }
}

fn globals(entries: Vec<(&str, Value<Host>)>) -> Bindings<Host> {
    let mut bindings = Bindings::empty();
    for (name, value) in entries {
        bindings.add(String::from(name), value);
    }
    bindings
}

fn task(code: Vec<Instruction>) -> Task<Host> {
    Task::new(Bytecode::new(code), Bindings::empty(), BitString::empty(), BitString::empty())
}

fn as_bits(value: Value<Host>) -> BitString {
    match value {
        Value::BitString(s) => s,
        Value::Callable(_) => panic!("a bit string was expected"),
    }
}

fn all_bits(values: Vec<Value<Host>>) -> Vec<BitString> {
    values.into_iter().map(as_bits).collect()
}

fn nothing(result: Result<StepResult<Host>, ExecError<Host>>) {
    match result {
        Ok(StepResult::Nothing) => {}
        other => panic!("the step was to ask nothing: {:?}", other),
    }
}

fn finished(result: Result<StepResult<Host>, ExecError<Host>>) -> Value<Host> {
    match result {
        Ok(StepResult::FinishTask { return_value }) => return_value,
        other => panic!("the task was to finish: {:?}", other),
    }
}

/// Runs the task to its end, which must come without a call.
fn run_alone(task: &mut Task<Host>, globals: &Bindings<Host>) -> Result<Value<Host>, ExecError<Host>> {
    loop {
        match task.step(globals)? {
            StepResult::Nothing => {}
            StepResult::FinishTask { return_value } => return Ok(return_value),
            StepResult::Call { .. } => panic!("no call was expected"),
        }
    }
}

#[test]
fn execution_state_starts_empty() {
    let _state: ExecutionState<Host> = ExecutionState::new();
}

#[test]
fn load_const_pushes_the_literal() {
    let mut t = task(vec![load("01")]);
    let g = Bindings::empty();
    nothing(t.step(&g));
    assert_eq!(as_bits(finished(t.step(&g))), bits("01"));
}

#[test]
fn finishing_hands_back_the_value_again_and_again() {
    let mut t = task(vec![load("1")]);
    let g = Bindings::empty();
    nothing(t.step(&g));
    assert_eq!(as_bits(finished(t.step(&g))), bits("1"));
    assert_eq!(as_bits(finished(t.step(&g))), bits("1"));
}

#[test]
fn end_of_code_with_no_value_is_an_error() {
    let mut t = task(vec![]);
    match t.step(&Bindings::empty()) {
        Err(ExecError::ValueStackSizeUnexpected { real: 0, expected: 1 }) => {}
        other => panic!("unexpected: {:?}", other),
    }
}

#[test]
fn end_of_code_with_two_values_is_an_error() {
    let mut t = task(vec![load("1"), load("0")]);
    let g = Bindings::empty();
    nothing(t.step(&g));
    nothing(t.step(&g));
    match t.step(&g) {
        Err(ExecError::ValueStackSizeUnexpected { real: 2, expected: 1 }) => {}
        other => panic!("unexpected: {:?}", other),
    }
}

#[test]
fn load_var_looks_locally_first() {
    let mut locals = Bindings::empty();
    locals.add(String::from("x"), value("1"));
    let g = globals(vec![("x", value("0")), ("y", value("00"))]);
    let mut t = Task::new(
        Bytecode::new(vec![load_var("x", false), load_var("y", false), Instruction::Cat(2)]),
        locals,
        BitString::empty(),
        BitString::empty(),
    );
    assert_eq!(as_bits(run_alone(&mut t, &g).unwrap()), bits("100"));
}

#[test]
fn load_var_of_an_unbound_name_is_an_error() {
    let mut t = task(vec![load_var("missing", false)]);
    match t.step(&Bindings::empty()) {
        Err(ExecError::VariableNotFound { name }) => assert_eq!(name, "missing"),
        other => panic!("unexpected: {:?}", other),
    }
}

#[test]
fn cat_joins_in_the_order_of_pushing() {
    let mut t = task(vec![load("1"), load("00"), load("."), load("011"), Instruction::Cat(3)]);
    let g = Bindings::empty();
    for _ in 0..5 {
        nothing(t.step(&g));
    }
    match t.step(&g) {
        Err(ExecError::ValueStackSizeUnexpected { real: 2, expected: 1 }) => {}
        other => panic!("unexpected: {:?}", other),
    }
    let mut t = task(vec![load("1"), load("00"), load("011"), Instruction::Cat(3)]);
    let joined = as_bits(run_alone(&mut t, &g).unwrap());
    assert_eq!(joined, bits("100011"));
    assert_eq!(joined.len(), 1 + 2 + 3);
}

#[test]
fn cat_of_nothing_is_the_empty_string() {
    let mut t = task(vec![Instruction::Cat(0)]);
    assert_eq!(as_bits(run_alone(&mut t, &Bindings::empty()).unwrap()), bits("."));
}

#[test]
fn cat_of_too_few_values_is_an_error() {
    let mut t = task(vec![load("1"), Instruction::Cat(2)]);
    let g = Bindings::empty();
    nothing(t.step(&g));
    assert!(matches!(t.step(&g), Err(ExecError::ValueStackEmpty)));
}

#[test]
fn cat_of_a_callable_is_an_error() {
    let g = globals(vec![("f", Value::Callable(Callable::Coded(constant("f", "1"))))]);
    let mut t = task(vec![load("1"), load_var("f", false), load("0"), Instruction::Cat(3)]);
    for _ in 0..3 {
        nothing(t.step(&g));
    }
    assert!(matches!(t.step(&g), Err(ExecError::NotBitString)));
}

#[test]
fn a_failed_step_leaves_the_task_as_it_was() {
    let g = globals(vec![("f", Value::Callable(Callable::Coded(constant("f", "1"))))]);
    let mut t = task(vec![load("1"), load_var("f", false), Instruction::Cat(2)]);
    nothing(t.step(&g));
    nothing(t.step(&g));
    assert!(matches!(t.step(&g), Err(ExecError::NotBitString)));
    assert!(matches!(t.step(&g), Err(ExecError::NotBitString)));
    let mut t = task(vec![load("1"), Instruction::Cat(2), load("0")]);
    nothing(t.step(&g));
    assert!(matches!(t.step(&g), Err(ExecError::ValueStackEmpty)));
    t.push(value("0"));
    nothing(t.step(&g));
    nothing(t.step(&g));
    match t.step(&g) {
        Err(ExecError::ValueStackSizeUnexpected { real: 2, expected: 1 }) => {}
        other => panic!("unexpected: {:?}", other),
    }
}

#[test]
fn call_takes_the_arguments_in_the_order_of_pushing() {
    let g = globals(vec![("f", Value::Callable(Callable::Coded(constant("f", "1"))))]);
    let mut t = task(vec![load("11"), load_var("f", false), load("0"), load("1"), Instruction::Call(2)]);
    for _ in 0..4 {
        nothing(t.step(&g));
    }
    match t.step(&g) {
        Ok(StepResult::Call { callable: Callable::Coded(f), arguments, tail: TailStatus::NotTail }) => {
            assert_eq!(f.name, "f");
            assert_eq!(all_bits(arguments), vec![bits("0"), bits("1")]);
        }
        other => panic!("unexpected: {:?}", other),
    }
    t.push(value("0"));
    match t.step(&g) {
        Err(ExecError::ValueStackSizeUnexpected { real: 2, expected: 1 }) => {}
        other => panic!("unexpected: {:?}", other),
    }
}

#[test]
fn call_with_too_few_values_is_an_error() {
    let g = Bindings::empty();
    let mut t = task(vec![load("1"), Instruction::Call(1)]);
    nothing(t.step(&g));
    assert!(matches!(t.step(&g), Err(ExecError::ValueStackEmpty)));
    let mut t = task(vec![Instruction::Call(0)]);
    assert!(matches!(t.step(&g), Err(ExecError::ValueStackEmpty)));
    let mut t = task(vec![load("1"), Instruction::Call(usize::MAX)]);
    nothing(t.step(&g));
    assert!(matches!(t.step(&g), Err(ExecError::ValueStackEmpty)));
}

#[test]
fn call_of_a_bit_string_is_an_error() {
    let g = Bindings::empty();
    let mut t = task(vec![load("1"), load("0"), Instruction::Call(1)]);
    nothing(t.step(&g));
    nothing(t.step(&g));
    assert!(matches!(t.step(&g), Err(ExecError::NotCallable)));
}

#[test]
fn tail_takes_prepends_appends_callee_and_arguments() {
    let g = globals(vec![("f", Value::Callable(Callable::Coded(constant("f", "1"))))]);
    let mut t = task(vec![
        load("1"),
        load("10"),
        load("0"),
        load_var("f", false),
        load("111"),
        load("000"),
        Instruction::Tail { prepend: 2, append: 1 },
    ]);
    for _ in 0..6 {
        nothing(t.step(&g));
    }
    match t.step(&g) {
        Ok(StepResult::Call {
            callable: Callable::Coded(f),
            arguments,
            tail: TailStatus::Tail { prepends, appends },
        }) => {
            assert_eq!(f.name, "f");
            assert_eq!(all_bits(arguments), vec![bits("111"), bits("000")]);
            assert_eq!(prepends, vec![bits("1"), bits("10")]);
            assert_eq!(appends, vec![bits("0")]);
        }
        other => panic!("unexpected: {:?}", other),
    }
    match t.step(&g) {
        Err(ExecError::ValueStackSizeUnexpected { real: 0, expected: 1 }) => {}
        other => panic!("unexpected: {:?}", other),
    }
}

#[test]
fn tail_with_too_few_values_is_an_error() {
    let g = globals(vec![("f", Value::Callable(Callable::Coded(constant("f", "1"))))]);
    let mut t = task(vec![load("1"), load_var("f", false), Instruction::Tail { prepend: 1, append: 1 }]);
    nothing(t.step(&g));
    nothing(t.step(&g));
    assert!(matches!(t.step(&g), Err(ExecError::ValueStackEmpty)));
    let mut t = task(vec![Instruction::Tail { prepend: 0, append: 0 }]);
    assert!(matches!(t.step(&g), Err(ExecError::ValueStackEmpty)));
    let mut t = task(vec![load("1"), Instruction::Tail { prepend: usize::MAX, append: 1 }]);
    nothing(t.step(&g));
    assert!(matches!(t.step(&g), Err(ExecError::ValueStackEmpty)));
    let mut t = task(vec![load("1"), Instruction::Tail { prepend: usize::MAX, append: 0 }]);
    nothing(t.step(&g));
    assert!(matches!(t.step(&g), Err(ExecError::ValueStackEmpty)));
}

#[test]
fn tail_of_a_bit_string_is_an_error() {
    let g = Bindings::empty();
    let mut t = task(vec![load("1"), load("0"), Instruction::Tail { prepend: 1, append: 0 }]);
    nothing(t.step(&g));
    nothing(t.step(&g));
    assert!(matches!(t.step(&g), Err(ExecError::NotCallable)));
}

#[test]
fn tail_with_a_callable_among_the_bit_strings_is_an_error() {
    let g = globals(vec![("f", Value::Callable(Callable::Coded(constant("f", "1"))))]);
    let mut t = task(vec![
        load_var("f", false),
        load("0"),
        load_var("f", false),
        Instruction::Tail { prepend: 1, append: 1 },
    ]);
    for _ in 0..3 {
        nothing(t.step(&g));
    }
    assert!(matches!(t.step(&g), Err(ExecError::NotBitString)));
    let mut t = task(vec![
        load("0"),
        load_var("f", false),
        load_var("f", false),
        Instruction::Tail { prepend: 1, append: 1 },
    ]);
    for _ in 0..3 {
        nothing(t.step(&g));
    }
    assert!(matches!(t.step(&g), Err(ExecError::NotBitString)));
}

#[test]
fn trampoline_calls_a_function_of_no_argument_and_stays() {
    let g = globals(vec![("g", Value::Callable(Callable::Coded(constant("g", "01"))))]);
    let mut t = task(vec![load_var("g", true)]);
    for _ in 0..2 {
        match t.step(&g) {
            Ok(StepResult::Call { callable: Callable::Coded(f), arguments, tail: TailStatus::NotTail }) => {
                assert_eq!(f.name, "g");
                assert!(arguments.is_empty());
            }
            other => panic!("unexpected: {:?}", other),
        }
    }
}

#[test]
fn trampoline_asks_what_call_zero_asks() {
    let g = globals(vec![("g", Value::Callable(Callable::Coded(constant("g", "01"))))]);
    let mut by_load = task(vec![load("1"), load_var("g", true)]);
    let mut by_call = task(vec![load("1"), load_var("g", false), Instruction::Call(0)]);
    nothing(by_load.step(&g));
    nothing(by_call.step(&g));
    nothing(by_call.step(&g));
    let asked = |result| match result {
        Ok(StepResult::Call { callable: Callable::Coded(f), arguments, tail: TailStatus::NotTail }) => {
            (f.name, f.variants.len(), arguments.len())
        }
        other => panic!("unexpected: {:?}", other),
    };
    assert_eq!(asked(by_load.step(&g)), asked(by_call.step(&g)));
}

#[test]
fn trampoline_pushes_what_cannot_be_called_with_no_argument() {
    let unary = coded("u", vec![(vec![Pattern::Anything { name: String::from("x") }], vec![load("1")])]);
    let g = globals(vec![
        ("u", Value::Callable(Callable::Coded(unary))),
        ("n", Value::Callable(native(Host::Count, "n"))),
        ("s", value("10")),
    ]);
    for name in ["u", "n"] {
        let mut t = task(vec![load_var(name, true)]);
        nothing(t.step(&g));
        assert!(finished(t.step(&g)).into_callable().is_some());
    }
    let mut t = task(vec![load_var("s", true)]);
    assert_eq!(as_bits(run_alone(&mut t, &g).unwrap()), bits("10"));
}

#[test]
fn without_trampoline_a_function_of_no_argument_is_pushed() {
    let g = globals(vec![("g", Value::Callable(Callable::Coded(constant("g", "01"))))]);
    let mut t = task(vec![load_var("g", false)]);
    nothing(t.step(&g));
    assert!(finished(t.step(&g)).into_callable().is_some());
}

#[test]
fn make_task_commits_to_the_first_alternative_that_fits() {
    let any = |name: &str| Pattern::Anything { name: String::from(name) };
    let one = Pattern::ConstLen(ConstLenPattern {
        elements: vec![ConstLenPatternElement::ConstBit(Bit::One)],
    });
    let f = coded(
        "f",
        vec![
            (vec![one.clone()], vec![load("00")]),
            (vec![any("x")], vec![load("01")]),
            (vec![one], vec![load("10")]),
            (vec![any("x"), any("y")], vec![load("11")]),
        ],
    );
    let g = Bindings::empty();
    let run = |args: Vec<Value<Host>>| {
        let mut made = make_task(f.clone(), args, BitString::empty(), BitString::empty())?;
        run_alone(&mut made, &g)
    };
    assert_eq!(as_bits(run(vec![value("1")]).unwrap()), bits("00"));
    assert_eq!(as_bits(run(vec![value("0")]).unwrap()), bits("01"));
    assert_eq!(as_bits(run(vec![value("0"), value("1")]).unwrap()), bits("11"));
    match run(vec![]) {
        Err(ExecError::NoMatch { func_name, args }) => {
            assert_eq!(func_name, "f");
            assert!(args.is_empty());
        }
        other => panic!("unexpected: {:?}", other.map(as_bits)),
    }
    match run(vec![value("0"), value("1"), value("11")]) {
        Err(ExecError::NoMatch { func_name, args }) => {
            assert_eq!(func_name, "f");
            assert_eq!(all_bits(args), vec![bits("0"), bits("1"), bits("11")]);
        }
        other => panic!("unexpected: {:?}", other.map(as_bits)),
    }
}

#[test]
fn make_task_binds_the_arguments_locally() {
    let f = coded(
        "f",
        vec![(vec![Pattern::Anything { name: String::from("x") }], vec![load_var("x", false)])],
    );
    let g = globals(vec![("x", value("0"))]);
    let mut made = make_task(f, vec![value("111")], BitString::empty(), BitString::empty()).unwrap();
    assert_eq!(as_bits(run_alone(&mut made, &g).unwrap()), bits("111"));
}

#[test]
fn step_without_a_task_is_an_error() {
    let mut vm: VM<Host> = VM::new(Bindings::empty());
    assert_eq!(vm.depth(), 0);
    assert!(vm.peek().is_none());
    assert!(matches!(vm.step(), Err(ExecError::TaskStackEmpty)));
    assert_eq!(vm.depth(), 0);
}

#[test]
fn invoke_by_name_of_an_unbound_name_is_an_error() {
    let mut vm: VM<Host> = VM::new(Bindings::empty());
    match vm.invoke_by_name("main", vec![]) {
        Err(ExecError::VariableNotFound { name }) => assert_eq!(name, "main"),
        other => panic!("unexpected: {:?}", other),
    }
    assert_eq!(vm.depth(), 0);
}

#[test]
fn invoke_by_name_of_a_bit_string_is_an_error() {
    let mut vm = VM::new(globals(vec![("main", value("1"))]));
    assert!(matches!(vm.invoke_by_name("main", vec![]), Err(ExecError::NotCallable)));
    assert_eq!(vm.depth(), 0);
}

#[test]
fn invoke_by_name_starts_a_task() {
    let mut vm = VM::new(globals(vec![("main", Value::Callable(Callable::Coded(constant("main", "1"))))]));
    vm.invoke_by_name("main", vec![]).unwrap();
    assert_eq!(vm.depth(), 1);
    assert!(vm.peek().is_none());
    vm.step().unwrap();
    assert_eq!(as_bits(vm.peek().unwrap()), bits("1"));
    assert!(matches!(vm.step(), Err(ExecError::TaskStackEmpty)));
    assert_eq!(vm.depth(), 0);
}

#[test]
fn invoke_without_a_fitting_alternative_is_an_error() {
    let mut vm: VM<Host> = VM::new(Bindings::empty());
    let f = constant("f", "1");
    match vm.invoke(Callable::Coded(f), vec![value("1")], BitString::empty(), BitString::empty()) {
        Err(ExecError::NoMatch { func_name, args }) => {
            assert_eq!(func_name, "f");
            assert_eq!(all_bits(args), vec![bits("1")]);
        }
        other => panic!("unexpected: {:?}", other),
    }
    assert_eq!(vm.depth(), 0);
}

#[test]
fn finished_task_puts_its_buffers_round_the_result() {
    let mut vm: VM<Host> = VM::new(Bindings::empty());
    let waiting = coded("waiting", vec![(vec![], vec![load("1"), load("0")])]);
    vm.invoke(Callable::Coded(waiting), vec![], BitString::empty(), BitString::empty()).unwrap();
    vm.invoke(Callable::Coded(constant("f", "1")), vec![], bits("00"), bits("011")).unwrap();
    assert_eq!(vm.depth(), 2);
    vm.step().unwrap();
    vm.step().unwrap();
    assert_eq!(vm.depth(), 1);
    assert_eq!(as_bits(vm.peek().unwrap()), bits("001011"));
}

#[test]
fn finished_task_passes_a_callable_on_only_with_empty_buffers() {
    let g = || globals(vec![("k", Value::Callable(Callable::Coded(constant("k", "1"))))]);
    let returns_callable = || coded("f", vec![(vec![], vec![load_var("k", false)])]);
    let waiting = || coded("waiting", vec![(vec![], vec![load("1"), load("0")])]);

    let mut vm = VM::new(g());
    vm.invoke(Callable::Coded(waiting()), vec![], BitString::empty(), BitString::empty()).unwrap();
    vm.invoke(Callable::Coded(returns_callable()), vec![], BitString::empty(), BitString::empty())
        .unwrap();
    vm.step().unwrap();
    vm.step().unwrap();
    assert_eq!(vm.depth(), 1);
    assert!(vm.peek().unwrap().into_callable().is_some());

    for (prepend, append) in [("1", "."), (".", "1")] {
        let mut vm = VM::new(g());
        vm.invoke(Callable::Coded(waiting()), vec![], BitString::empty(), BitString::empty()).unwrap();
        vm.invoke(Callable::Coded(returns_callable()), vec![], bits(prepend), bits(append)).unwrap();
        vm.step().unwrap();
        assert!(matches!(vm.step(), Err(ExecError::NotBitString)));
        assert_eq!(vm.depth(), 1);
    }
}

#[test]
fn native_result_goes_on_the_stack_of_the_caller() {
    let g = globals(vec![("count", Value::Callable(native(Host::Count, "count")))]);
    let mut vm = VM::new(g);
    let caller = coded(
        "caller",
        vec![(vec![], vec![load_var("count", false), load("0"), load("0"), load("0"), Instruction::Call(3)])],
    );
    vm.invoke(Callable::Coded(caller), vec![], BitString::empty(), BitString::empty()).unwrap();
    for _ in 0..5 {
        vm.step().unwrap();
        assert_eq!(vm.depth(), 1);
    }
    assert_eq!(as_bits(vm.peek().unwrap()), bits("111"));
    assert!(matches!(vm.step(), Err(ExecError::TaskStackEmpty)));
}

#[test]
fn native_gets_the_arguments_in_order() {
    let g = globals(vec![("first", Value::Callable(native(Host::First, "first")))]);
    let mut vm = VM::new(g);
    let caller = coded(
        "caller",
        vec![(vec![], vec![load_var("first", false), load("01"), load("10"), Instruction::Call(2)])],
    );
    vm.invoke(Callable::Coded(caller), vec![], BitString::empty(), BitString::empty()).unwrap();
    for _ in 0..4 {
        vm.step().unwrap();
    }
    assert_eq!(as_bits(vm.peek().unwrap()), bits("01"));
}

#[test]
fn native_error_is_passed_on() {
    let g = globals(vec![("fail", Value::Callable(native(Host::Fail, "fail")))]);
    let mut vm = VM::new(g);
    let caller = coded("caller", vec![(vec![], vec![load_var("fail", false), Instruction::Call(0)])]);
    vm.invoke(Callable::Coded(caller), vec![], BitString::empty(), BitString::empty()).unwrap();
    vm.step().unwrap();
    assert!(matches!(vm.step(), Err(ExecError::NotBitString)));
    assert_eq!(vm.depth(), 1);
}

#[test]
fn native_without_a_task_has_nowhere_to_put_its_result() {
    let mut vm: VM<Host> = VM::new(Bindings::empty());
    let result = vm.invoke(native(Host::Count, "count"), vec![], BitString::empty(), BitString::empty());
    assert!(matches!(result, Err(ExecError::TaskStackEmpty)));
    let result = vm.invoke(native(Host::Fail, "fail"), vec![], BitString::empty(), BitString::empty());
    assert!(matches!(result, Err(ExecError::NotBitString)));
}

#[test]
fn native_in_tail_position_has_lost_its_caller() {
    let g = globals(vec![("count", Value::Callable(native(Host::Count, "count")))]);
    let mut vm = VM::new(g);
    let caller = coded(
        "caller",
        vec![(vec![], vec![load_var("count", false), Instruction::Tail { prepend: 0, append: 0 }])],
    );
    vm.invoke(Callable::Coded(caller), vec![], BitString::empty(), BitString::empty()).unwrap();
    vm.step().unwrap();
    assert!(matches!(vm.step(), Err(ExecError::TaskStackEmpty)));
    assert_eq!(vm.depth(), 0);
}

#[test]
fn deliver_puts_a_value_on_the_running_task() {
    let mut vm: VM<Host> = VM::new(Bindings::empty());
    assert!(matches!(vm.deliver(Ok(value("1"))), Err(ExecError::TaskStackEmpty)));
    assert!(matches!(vm.deliver(Err(ExecError::NotCallable)), Err(ExecError::NotCallable)));
    vm.invoke(Callable::Coded(constant("f", "0")), vec![], BitString::empty(), BitString::empty())
        .unwrap();
    vm.deliver(Ok(value("11"))).unwrap();
    assert_eq!(as_bits(vm.peek().unwrap()), bits("11"));
    assert!(matches!(vm.deliver(Err(ExecError::ValueStackEmpty)), Err(ExecError::ValueStackEmpty)));
    assert_eq!(vm.depth(), 1);
}

fn function(name: &str, variants: Vec<(Vec<Pattern>, Expr)>) -> Function {
    Function {
        name: String::from(name),
        variants: variants
            .into_iter()
            .map(|(patterns, body)| FunctionVariant { patterns: MultiPattern(patterns), body })
            .collect(),
    }
}

fn starts_with_one(rest: &str) -> Pattern {
    Pattern::VarLen(VarLenPattern {
        left: ConstLenPattern { elements: vec![ConstLenPatternElement::ConstBit(Bit::One)] },
        bit_string_var_name: String::from(rest),
        right: ConstLenPattern::empty(),
    })
}

fn recursive_call() -> Expr {
    Expr::Call {
        callee: Box::new(Expr::Variable { name: String::from("down"), trampoline: false }),
        args: vec![Expr::Variable { name: String::from("rest"), trampoline: true }],
    }
}

fn run_to_the_end(vm: &mut VM<Host>) -> (usize, usize) {
    let mut deepest = vm.depth();
    let mut steps = 0;
    loop {
        match vm.step() {
            Ok(()) => {
                steps += 1;
                deepest = deepest.max(vm.depth());
            }
            Err(ExecError::TaskStackEmpty) => return (deepest, steps),
            Err(other) => panic!("unexpected error: {:?}", other),
        }
    }
}

#[test]
fn tail_recursion_runs_in_one_task_however_long() {
    let program = |fused: bool| Program {
        function_map: vec![function(
            "down",
            vec![
                (vec![Pattern::empty()], Expr::Literal(bits("."))),
                (
                    vec![starts_with_one("rest")],
                    if fused {
                        Expr::Cat { children: vec![Expr::Literal(bits("0")), recursive_call()] }
                    } else {
                        Expr::Cat {
                            children: vec![
                                Expr::Literal(bits("0")),
                                Expr::Cat { children: vec![recursive_call()] },
                            ],
                        }
                    },
                ),
            ],
        )],
    };
    for length in [1usize, 5, 40] {
        let argument = || Value::BitString(BitString::from_bits(&vec![Bit::One; length]));
        let mut vm = VM::new(Compile::<Host>::compile(program(true)).into_bindings());
        vm.invoke_by_name("down", vec![argument()]).unwrap();
        let (deepest, _) = run_to_the_end(&mut vm);
        assert_eq!(deepest, 1);

        let mut vm = VM::new(Compile::<Host>::compile(program(false)).into_bindings());
        vm.invoke_by_name("down", vec![argument()]).unwrap();
        let (deepest, _) = run_to_the_end(&mut vm);
        assert_eq!(deepest, length + 1);
    }
}

#[test]
fn fused_and_unfused_concatenation_return_the_same() {
    let body = |fused: bool| {
        let call = Expr::Call {
            callee: Box::new(Expr::Variable { name: String::from("k"), trampoline: false }),
            args: vec![Expr::Literal(bits("1"))],
        };
        let focus = if fused { call } else { Expr::Cat { children: vec![call] } };
        Expr::Cat {
            children: vec![Expr::Literal(bits("10")), Expr::Literal(bits("0")), focus, Expr::Literal(bits("11"))],
        }
    };
    let mut results = Vec::new();
    for fused in [true, false] {
        let program = Program {
            function_map: vec![
                function("h", vec![(vec![], body(fused))]),
                function(
                    "k",
                    vec![(
                        vec![Pattern::Anything { name: String::from("x") }],
                        Expr::Cat {
                            children: vec![
                                Expr::Variable { name: String::from("x"), trampoline: true },
                                Expr::Literal(bits("0")),
                            ],
                        },
                    )],
                ),
            ],
        };
        let mut vm = VM::new(Compile::<Host>::compile(program).into_bindings());
        let waiting = coded("waiting", vec![(vec![], vec![load_var("h", false), Instruction::Call(0)])]);
        vm.invoke(Callable::Coded(waiting), vec![], BitString::empty(), BitString::empty()).unwrap();
        vm.step().unwrap();
        vm.step().unwrap();
        while vm.depth() > 1 {
            vm.step().unwrap();
        }
        results.push(as_bits(vm.peek().unwrap()));
    }
    assert_eq!(results[0], bits("1001011"));
    assert_eq!(results[0], results[1]);
}

#[test]
fn compiled_body_ends_with_one_value() {
    let program = Program {
        function_map: vec![
            function(
                "h",
                vec![(
                    vec![],
                    Expr::Cat {
                        children: vec![
                            Expr::Literal(bits("1")),
                            Expr::Call {
                                callee: Box::new(Expr::Variable { name: String::from("k"), trampoline: false }),
                                args: vec![],
                            },
                            Expr::Call {
                                callee: Box::new(Expr::Variable { name: String::from("k"), trampoline: false }),
                                args: vec![],
                            },
                        ],
                    },
                )],
            ),
            function("k", vec![(vec![], Expr::Literal(bits("0")))]),
        ],
    };
    let mut vm = VM::new(Compile::<Host>::compile(program).into_bindings());
    let waiting = coded("waiting", vec![(vec![], vec![load_var("h", false), Instruction::Call(0)])]);
    vm.invoke(Callable::Coded(waiting), vec![], BitString::empty(), BitString::empty()).unwrap();
    vm.step().unwrap();
    vm.step().unwrap();
    while vm.depth() > 1 {
        vm.step().unwrap();
    }
    assert_eq!(as_bits(vm.peek().unwrap()), bits("100"));
}
