use bitmachine::bindings::Bindings;
use bitmachine::bitstring::{Bit, BitString};
use bitmachine::bytecode::Bytecode;
use bitmachine::callable::Callable;
use bitmachine::coded_function::CodedFunction;
use bitmachine::native_function::NativeOperation;
use bitmachine::pattern::{
    ConstLenPattern, ConstLenPatternElement, MultiPattern, Pattern, PatternParse,
    PatternParseMulti, VarLenPattern,
};
use bitmachine::value::Value;
use bitmachine::vm::ExecError;

#[derive(Clone, Copy, Debug)]
struct NoHost;

impl NativeOperation for NoHost {
    fn call(&self, _args: Vec<Value<NoHost>>) -> Result<Value<NoHost>, ExecError<NoHost>> {
        Err(ExecError::NotCallable)
    }
}

fn bits(text: &str) -> BitString {
    BitString::from_str(text).unwrap()
}

fn value(text: &str) -> Value<NoHost> {
    Value::BitString(bits(text))
}

fn callable() -> Value<NoHost> {
    Value::Callable(Callable::Coded(CodedFunction { name: String::from("f"), variants: vec![] }))
}

fn lookup(bindings: &Bindings<NoHost>, name: &str) -> Option<BitString> {
    bindings.get_value(name).map(|v| v.clone().into_bit_string().unwrap())
}

fn literal(bit: Bit) -> ConstLenPatternElement {
    ConstLenPatternElement::ConstBit(bit)
}

fn any(name: &str) -> ConstLenPatternElement {
    ConstLenPatternElement::AnyBit { var_name: String::from(name) }
}

fn fixed(elements: Vec<ConstLenPatternElement>) -> ConstLenPattern {
    ConstLenPattern { elements }
}

fn try_one(pattern: &Pattern, value: Value<NoHost>) -> Option<Bindings<NoHost>> {
    PatternParse::<NoHost>::parse(pattern, value)
}

fn try_all(patterns: &MultiPattern, args: Vec<Value<NoHost>>) -> Option<Bindings<NoHost>> {
    PatternParseMulti::<NoHost>::parse(patterns, args)
}

#[test]
fn element_literal_bit() {
    assert_eq!(literal(Bit::One).parse(Bit::One), Some(None));
    assert_eq!(literal(Bit::One).parse(Bit::Zero), None);
    assert_eq!(literal(Bit::Zero).parse(Bit::Zero), Some(None));
}

#[test]
fn element_any_bit_binds_a_one_bit_string() {
    assert_eq!(any("b").parse(Bit::One), Some(Some((String::from("b"), bits("1")))));
    assert_eq!(any("b").parse(Bit::Zero), Some(Some((String::from("b"), bits("0")))));
}

#[test]
fn anything_binds_any_value() {
    let pattern = Pattern::Anything { name: String::from("x") };
    let bound = try_one(&pattern, value("101")).unwrap();
    assert_eq!(lookup(&bound, "x"), Some(bits("101")));
    let bound = try_one(&pattern, callable()).unwrap();
    assert!(bound.get_value("x").unwrap().clone().into_callable().is_some());
}

#[test]
fn const_len_needs_the_exact_length() {
    let pattern = Pattern::ConstLen(fixed(vec![literal(Bit::One), any("b")]));
    assert!(try_one(&pattern, value("10")).is_some());
    assert!(try_one(&pattern, value("1")).is_none());
    assert!(try_one(&pattern, value("101")).is_none());
    assert!(try_one(&pattern, value(".")).is_none());
}

#[test]
fn const_len_checks_literal_bits_and_binds_the_others() {
    let pattern = Pattern::ConstLen(fixed(vec![literal(Bit::One), any("b"), literal(Bit::Zero)]));
    let bound = try_one(&pattern, value("110")).unwrap();
    assert_eq!(lookup(&bound, "b"), Some(bits("1")));
    assert_eq!(bound.get_map().len(), 1);
    assert!(try_one(&pattern, value("010")).is_none());
    assert!(try_one(&pattern, value("111")).is_none());
}

#[test]
fn const_len_rejects_a_callable() {
    let pattern = Pattern::ConstLen(fixed(vec![]));
    assert!(try_one(&pattern, callable()).is_none());
}

#[test]
fn empty_pattern_fits_only_the_empty_string() {
    let pattern = Pattern::empty();
    assert_eq!(pattern, Pattern::ConstLen(ConstLenPattern::empty()));
    assert_eq!(ConstLenPattern::empty().len(), 0);
    let bound = try_one(&pattern, value(".")).unwrap();
    assert!(bound.get_map().is_empty());
    assert!(try_one(&pattern, value("0")).is_none());
}

#[test]
fn const_len_later_position_decides_a_repeated_name() {
    let pattern = Pattern::ConstLen(fixed(vec![any("a"), any("a")]));
    let bound = try_one(&pattern, value("01")).unwrap();
    assert_eq!(lookup(&bound, "a"), Some(bits("1")));
}

fn var_len(left: Vec<ConstLenPatternElement>, name: &str, right: Vec<ConstLenPatternElement>) -> Pattern {
    Pattern::VarLen(VarLenPattern {
        left: fixed(left),
        bit_string_var_name: String::from(name),
        right: fixed(right),
    })
}

#[test]
fn var_len_binds_the_middle() {
    let pattern = var_len(vec![literal(Bit::One), any("l")], "m", vec![any("r"), literal(Bit::One)]);
    let bound = try_one(&pattern, value("1001101")).unwrap();
    assert_eq!(lookup(&bound, "l"), Some(bits("0")));
    assert_eq!(lookup(&bound, "m"), Some(bits("011")));
    assert_eq!(lookup(&bound, "r"), Some(bits("0")));
    assert_eq!(bound.get_map().len(), 3);
}

#[test]
fn var_len_middle_may_be_empty() {
    let pattern = var_len(vec![literal(Bit::One)], "m", vec![literal(Bit::Zero)]);
    let bound = try_one(&pattern, value("10")).unwrap();
    assert_eq!(lookup(&bound, "m"), Some(bits(".")));
}

#[test]
fn var_len_needs_room_for_both_ends() {
    let pattern = var_len(vec![literal(Bit::One)], "m", vec![literal(Bit::Zero)]);
    assert!(try_one(&pattern, value("1")).is_none());
    assert!(try_one(&pattern, value("0")).is_none());
    assert!(try_one(&pattern, value(".")).is_none());
}

#[test]
fn var_len_checks_both_ends() {
    let pattern = var_len(vec![literal(Bit::One)], "m", vec![literal(Bit::Zero)]);
    assert!(try_one(&pattern, value("0110")).is_none());
    assert!(try_one(&pattern, value("1111")).is_none());
    assert!(try_one(&pattern, value("1110")).is_some());
}

#[test]
fn var_len_with_empty_ends_fits_any_bit_string_only() {
    let pattern = var_len(vec![], "m", vec![]);
    let bound = try_one(&pattern, value("0110")).unwrap();
    assert_eq!(lookup(&bound, "m"), Some(bits("0110")));
    let bound = try_one(&pattern, value(".")).unwrap();
    assert_eq!(lookup(&bound, "m"), Some(bits(".")));
    assert!(try_one(&pattern, callable()).is_none());
}

#[test]
fn var_len_parse_middle_binds_the_name() {
    let pattern = VarLenPattern {
        left: fixed(vec![]),
        bit_string_var_name: String::from("m"),
        right: fixed(vec![]),
    };
    let bound: Bindings<NoHost> = pattern.parse_middle(bits("01"));
    assert_eq!(lookup(&bound, "m"), Some(bits("01")));
    assert_eq!(bound.get_map().len(), 1);
}

#[test]
fn var_len_later_part_decides_a_repeated_name() {
    let pattern = var_len(vec![any("a")], "a", vec![]);
    let bound = try_one(&pattern, value("011")).unwrap();
    assert_eq!(lookup(&bound, "a"), Some(bits("11")));
    let pattern = var_len(vec![any("a")], "a", vec![any("a")]);
    let bound = try_one(&pattern, value("0110")).unwrap();
    assert_eq!(lookup(&bound, "a"), Some(bits("0")));
}

#[test]
fn multi_pattern_needs_as_many_arguments_as_patterns() {
    let patterns = MultiPattern(vec![
        Pattern::Anything { name: String::from("x") },
        Pattern::Anything { name: String::from("y") },
    ]);
    assert!(try_all(&patterns, vec![value("1")]).is_none());
    assert!(try_all(&patterns, vec![value("1"), value("0"), value("1")]).is_none());
    assert!(try_all(&patterns, vec![]).is_none());
    let bound = try_all(&patterns, vec![value("1"), value("0")]).unwrap();
    assert_eq!(lookup(&bound, "x"), Some(bits("1")));
    assert_eq!(lookup(&bound, "y"), Some(bits("0")));
}

#[test]
fn no_pattern_fits_only_no_argument() {
    let patterns = MultiPattern(vec![]);
    assert!(try_all(&patterns, vec![]).unwrap().get_map().is_empty());
    assert!(try_all(&patterns, vec![value(".")]).is_none());
}

#[test]
fn multi_pattern_fails_where_one_position_fails() {
    let patterns = MultiPattern(vec![
        Pattern::ConstLen(fixed(vec![literal(Bit::One)])),
        Pattern::Anything { name: String::from("y") },
        Pattern::ConstLen(fixed(vec![literal(Bit::Zero)])),
    ]);
    assert!(try_all(&patterns, vec![value("1"), value("11"), value("0")]).is_some());
    assert!(try_all(&patterns, vec![value("0"), value("11"), value("0")]).is_none());
    assert!(try_all(&patterns, vec![value("1"), value("11"), value("1")]).is_none());
}

#[test]
fn multi_pattern_later_position_decides_a_repeated_name() {
    let patterns = MultiPattern(vec![
        Pattern::Anything { name: String::from("x") },
        Pattern::Anything { name: String::from("x") },
    ]);
    let bound = try_all(&patterns, vec![value("1"), value("0")]).unwrap();
    assert_eq!(lookup(&bound, "x"), Some(bits("0")));
    assert_eq!(bound.get_map().len(), 1);
}

#[test]
fn bound_and_literal_bits_spell_the_argument() {
    let pattern = var_len(vec![literal(Bit::One), any("l")], "m", vec![any("r"), literal(Bit::One)]);
    let argument = bits("1001101");
    let bound = try_one(&pattern, Value::BitString(argument.clone())).unwrap();
    let spelled = BitString::concat_all(&vec![
        bits("1"),
        lookup(&bound, "l").unwrap(),
        lookup(&bound, "m").unwrap(),
        lookup(&bound, "r").unwrap(),
        bits("1"),
    ]);
    assert_eq!(spelled, argument);
}

#[test]
fn patterns_clone_equal() {
    let pattern = var_len(vec![literal(Bit::One), any("l")], "m", vec![any("r")]);
    assert_eq!(pattern.clone(), pattern);
    let patterns = MultiPattern(vec![pattern, Pattern::empty()]);
    assert_eq!(patterns.clone(), patterns);
    let _ = Bytecode::new(vec![]);
}
