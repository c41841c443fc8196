use bitmachine::ast::{Expr, FunctionVariant, Program};
use bitmachine::bitstring::{Bit, BitString};
use bitmachine::bytecode::{decimal_text, Instruction, Pretty};
use bitmachine::callable::Callable;
use bitmachine::native_function::{alloc_reply, alloc_request, make_bindings, NativeOperation};
use bitmachine::pattern::{
    ConstLenPattern, ConstLenPatternElement, MultiPattern, Pattern, VarLenPattern,
};
use bitmachine::value::Value;
use bitmachine::vm::ExecError;

#[derive(Clone, Copy, Debug, PartialEq)]
enum Host {
    Alloc,
    Debug,
}

impl NativeOperation for Host {
    fn call(&self, _args: Vec<Value<Host>>) -> Result<Value<Host>, ExecError<Host>> {
        Ok(Value::BitString(BitString::empty()))
    }
}

fn bits(text: &str) -> BitString {
    BitString::from_str(text).unwrap()
}

#[test]
fn bit_text() {
    assert_eq!(Bit::Zero.to_text(), "0");
    assert_eq!(Bit::One.to_text(), "1");
}

#[test]
fn bit_string_text() {
    assert_eq!(bits("0110").to_text(), "0110");
    assert_eq!(bits("1").to_text(), "1");
    assert_eq!(BitString::empty().to_text(), ".");
}

#[test]
fn text_spells_the_bit_string_again() {
    for text in [".", "0", "1", "0101", "111000111"] {
        assert_eq!(bits(text).to_text(), text);
        assert_eq!(bits(&bits(text).to_text()), bits(text));
    }
}

#[test]
fn numbers_in_decimal() {
    assert_eq!(decimal_text(0), "0");
    assert_eq!(decimal_text(7), "7");
    assert_eq!(decimal_text(10), "10");
    assert_eq!(decimal_text(1234567890), "1234567890");
    assert_eq!(decimal_text(usize::MAX), usize::MAX.to_string());
}

#[test]
fn instruction_texts() {
    assert_eq!(Instruction::LoadConst(bits("01")).pretty(), "load_const 01");
    assert_eq!(Instruction::LoadConst(bits(".")).pretty(), "load_const .");
    assert_eq!(
        Instruction::LoadVar { name: String::from("x"), trampoline: true }.pretty(),
        "load_name x"
    );
    assert_eq!(
        Instruction::LoadVar { name: String::from("x"), trampoline: false }.pretty(),
        "load_name !x"
    );
    assert_eq!(Instruction::Call(3).pretty(), "call 3");
    assert_eq!(Instruction::Cat(12).pretty(), "cat 12");
    assert_eq!(Instruction::Tail { prepend: 2, append: 10 }.pretty(), "tail [pre = 2], [app = 10]");
}

#[test]
fn host_routines_stand_under_their_names() {
    let bindings = make_bindings(Host::Alloc, Host::Debug);
    assert_eq!(bindings.get_map().len(), 2);
    match bindings.get_value("$").unwrap() {
        Value::Callable(Callable::Native(f)) => {
            assert_eq!(f.func, Host::Alloc);
            assert_eq!(f.name, "$");
        }
        _ => panic!("a host routine was expected"),
    }
    match bindings.get_value("?!").unwrap() {
        Value::Callable(Callable::Native(f)) => {
            assert_eq!(f.func, Host::Debug);
            assert_eq!(f.name, "?!");
        }
        _ => panic!("a host routine was expected"),
    }
    assert!(bindings.get_value("?").is_none());
}

#[test]
fn allocation_is_asked_for_the_number_of_the_argument() {
    assert_eq!(alloc_request::<Host>(vec![Value::BitString(bits("1010"))]).unwrap(), 10);
    assert_eq!(alloc_request::<Host>(vec![Value::BitString(bits("."))]).unwrap(), 0);
}

#[test]
fn allocation_fits_one_bit_string_only() {
    let no_match = |args: Vec<Value<Host>>, count: usize| match alloc_request(args) {
        Err(ExecError::NoMatch { func_name, args }) => {
            assert_eq!(func_name, "$");
            assert_eq!(args.len(), count);
        }
        other => panic!("unexpected: {:?}", other),
    };
    no_match(vec![], 0);
    no_match(vec![Value::BitString(bits("1")), Value::BitString(bits("1"))], 2);
    let routine = make_bindings(Host::Alloc, Host::Debug).get_value("$").unwrap().clone();
    no_match(vec![routine], 1);
}

#[test]
fn allocation_hands_back_the_address_in_64_bits() {
    match alloc_reply::<Host>(0xdead_beef) {
        Value::BitString(s) => {
            assert_eq!(s, BitString::from_u64(0xdead_beef));
            assert_eq!(s.len(), 64);
            assert_eq!(s.as_usize(), 0xdead_beef);
        }
        Value::Callable(_) => panic!("a bit string was expected"),
    }
}

fn literal(bit: Bit) -> ConstLenPattern {
    ConstLenPattern { elements: vec![ConstLenPatternElement::ConstBit(bit)] }
}

#[test]
fn name_alone_fits_anything() {
    assert_eq!(
        Pattern::around(None, String::from("x"), None),
        Pattern::Anything { name: String::from("x") }
    );
}

#[test]
fn name_with_an_end_is_of_variable_length() {
    let var_len = |left: ConstLenPattern, right: ConstLenPattern| {
        Pattern::VarLen(VarLenPattern { left, bit_string_var_name: String::from("m"), right })
    };
    assert_eq!(
        Pattern::around(Some(literal(Bit::One)), String::from("m"), None),
        var_len(literal(Bit::One), ConstLenPattern::empty())
    );
    assert_eq!(
        Pattern::around(None, String::from("m"), Some(literal(Bit::Zero))),
        var_len(ConstLenPattern::empty(), literal(Bit::Zero))
    );
    assert_eq!(
        Pattern::around(Some(literal(Bit::One)), String::from("m"), Some(literal(Bit::Zero))),
        var_len(literal(Bit::One), literal(Bit::Zero))
    );
    assert_eq!(
        Pattern::around(Some(ConstLenPattern::empty()), String::from("m"), None),
        var_len(ConstLenPattern::empty(), ConstLenPattern::empty())
    );
}

fn variant(text: &str) -> FunctionVariant {
    FunctionVariant { patterns: MultiPattern(vec![]), body: Expr::Literal(bits(text)) }
}

fn body_text(variant: &FunctionVariant) -> String {
    match &variant.body {
        Expr::Literal(s) => s.to_text(),
        _ => panic!("a literal was expected"),
    }
}

#[test]
fn variants_gather_under_the_name_of_their_function() {
    let mut program = Program::new();
    assert!(program.function_map.is_empty());
    program.add_variant(String::from("f"), variant("0"));
    program.add_variant(String::from("g"), variant("1"));
    program.add_variant(String::from("f"), variant("00"));
    program.add_variant(String::from("h"), variant("11"));
    program.add_variant(String::from("f"), variant("000"));
    let names: Vec<&str> = program.function_map.iter().map(|f| f.name.as_str()).collect();
    assert_eq!(names, vec!["f", "g", "h"]);
    let texts: Vec<String> = program.function_map[0].variants.iter().map(body_text).collect();
    assert_eq!(texts, vec!["0", "00", "000"]);
    assert_eq!(program.function_map[1].variants.len(), 1);
    assert_eq!(body_text(&program.function_map[2].variants[0]), "11");
}
