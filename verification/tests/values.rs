use std::rc::Rc;
use symboscript::ast::{BinaryOperator, UnaryOperator};
use symboscript::interpreter::{apply_binary, apply_unary, call_result, import_path};
use symboscript::value::{ControlFlow, Value};
use symboscript::vault::Handle;

fn text(v: Value) -> String {
    v.to_text()
}

#[test]
fn truthiness() {
    assert!(!Value::Nil.as_bool());
    assert!(!Value::Number(0).as_bool());
    assert!(Value::Number(3).as_bool());
    assert!(Value::Number(-3).as_bool());
    assert!(Value::Bool(true).as_bool());
    assert!(!Value::Bool(false).as_bool());
    assert!(Value::Str(String::new()).as_bool());
    assert!(Value::Sequence(Rc::new(vec![])).as_bool());
    assert!(Value::ScopeRef(Handle { index: 0, generation: 0 }).as_bool());
    assert!(Value::Error("e".to_owned()).as_bool());
}

#[test]
fn sums() {
    assert_eq!(text(Value::Number(1).add(Value::Number(2))), "3");
    assert_eq!(text(Value::Str("a".to_owned()).add(Value::Number(1))), "a1");
    assert_eq!(text(Value::Number(1).add(Value::Str("a".to_owned()))), "1a");
    assert_eq!(text(Value::Number(-12).add(Value::Str("a".to_owned()))), "-12a");
    assert_eq!(text(Value::Str("a".to_owned()).add(Value::Str("b".to_owned()))), "ab");
    assert_eq!(text(Value::Bool(true).add(Value::Bool(true))), "true");
    assert_eq!(text(Value::Bool(false).add(Value::Bool(false))), "false");
    assert!(matches!(Value::Number(1).add(Value::Bool(true)), Value::Nil));
    assert!(matches!(Value::Nil.add(Value::Nil), Value::Nil));
}

#[test]
fn numbers_stay_within_their_range() {
    assert!(matches!(Value::Number(i64::MAX).add(Value::Number(1)), Value::Number(i64::MAX)));
    assert!(matches!(Value::Number(i64::MIN).sub(Value::Number(1)), Value::Number(i64::MIN)));
    assert!(matches!(Value::Number(i64::MAX).mul(Value::Number(-2)), Value::Number(i64::MIN)));
    assert!(matches!(Value::Number(i64::MIN).neg(), Value::Number(i64::MAX)));
    assert!(matches!(Value::Number(i64::MIN).div(Value::Number(-1)), Value::Number(i64::MAX)));
    assert!(matches!(Value::Number(i64::MIN).rem(Value::Number(-1)), Value::Number(0)));
    assert!(matches!(Value::Number(2).pow(&Value::Number(62)), Value::Number(4611686018427387904)));
    assert!(matches!(Value::Number(2).pow(&Value::Number(63)), Value::Number(i64::MAX)));
    assert!(matches!(
        Value::Number(2).pow(&Value::Number(1_000_000_000_000)),
        Value::Number(i64::MAX)
    ));
    assert!(matches!(Value::Number(-2).pow(&Value::Number(63)), Value::Number(i64::MIN)));
    assert!(matches!(Value::Number(-2).pow(&Value::Number(64)), Value::Number(i64::MAX)));
    assert!(matches!(
        Value::Number(-2).pow(&Value::Number(1_000_000_000_001)),
        Value::Number(i64::MIN)
    ));
    assert!(matches!(Value::Number(-1).pow(&Value::Number(1_000_000_000_001)), Value::Number(-1)));
    assert!(matches!(Value::Number(0).pow(&Value::Number(0)), Value::Number(1)));
    assert!(matches!(Value::Number(2).pow(&Value::Number(-1)), Value::Nil));
}

#[test]
fn quotients_and_remainders() {
    assert!(matches!(Value::Number(7).div(Value::Number(2)), Value::Number(3)));
    assert!(matches!(Value::Number(-7).div(Value::Number(2)), Value::Number(-3)));
    assert!(matches!(Value::Number(7).div(Value::Number(-2)), Value::Number(-3)));
    assert!(matches!(Value::Number(-7).div(Value::Number(-2)), Value::Number(3)));
    assert!(matches!(Value::Number(7).rem(Value::Number(2)), Value::Number(1)));
    assert!(matches!(Value::Number(-7).rem(Value::Number(2)), Value::Number(-1)));
    assert!(matches!(Value::Number(7).rem(Value::Number(-2)), Value::Number(1)));
    assert!(matches!(Value::Number(7).div(Value::Number(0)), Value::Nil));
    assert!(matches!(Value::Number(7).rem(Value::Number(0)), Value::Nil));
    for a in -20i64..20 {
        for b in -7i64..7 {
            if b != 0 {
                assert!(matches!(Value::Number(a).div(Value::Number(b)), Value::Number(q) if q == a / b));
                assert!(matches!(Value::Number(a).rem(Value::Number(b)), Value::Number(r) if r == a % b));
            }
        }
    }
}

#[test]
fn ranges_and_repetition() {
    assert_eq!(text(Value::Number(1).range(&Value::Number(5))), "[1, 2, 3, 4, 5]");
    assert_eq!(text(Value::Number(3).range(&Value::Number(3))), "[3]");
    assert_eq!(text(Value::Number(5).range(&Value::Number(1))), "[]");
    assert_eq!(text(Value::Number(-2).range(&Value::Number(2))), "[0, 1, 2]");
    assert!(matches!(Value::Number(1).range(&Value::Bool(true)), Value::Nil));
    assert_eq!(text(Value::Str("ab".to_owned()).mul(Value::Number(3))), "ababab");
    assert_eq!(text(Value::Number(2).mul(Value::Str("ab".to_owned()))), "abab");
    assert_eq!(text(Value::Str("ab".to_owned()).mul(Value::Number(-1))), "");
    assert!(matches!(Value::Bool(true).mul(Value::Bool(false)), Value::Bool(false)));
}

#[test]
fn bits_and_shifts() {
    assert!(matches!(Value::Number(6).bit_and(&Value::Number(3)), Value::Number(2)));
    assert!(matches!(Value::Number(6).bit_or(&Value::Number(3)), Value::Number(7)));
    assert!(matches!(Value::Number(6).bit_xor(&Value::Number(3)), Value::Number(5)));
    assert!(matches!(Value::Number(-6).bit_or(&Value::Number(3)), Value::Number(3)));
    assert!(matches!(Value::Bool(true).bit_and(&Value::Number(3)), Value::Number(0)));
    assert!(matches!(Value::Number(1).shl(Value::Number(4)), Value::Number(16)));
    assert!(matches!(Value::Number(1).shl(Value::Number(63)), Value::Number(i64::MAX)));
    assert!(matches!(Value::Number(1).shl(Value::Number(64)), Value::Number(0)));
    assert!(matches!(Value::Number(3).shl(Value::Number(63)), Value::Number(i64::MAX)));
    assert!(matches!(Value::Number(256).shr(Value::Number(4)), Value::Number(16)));
    assert!(matches!(Value::Number(256).shr(Value::Number(-4)), Value::Number(256)));
    assert!(matches!(Value::Number(-256).shr(Value::Number(4)), Value::Number(0)));
    assert!(matches!(Value::Str("x".to_owned()).shl(Value::Number(1)), Value::Nil));
}

#[test]
fn comparisons_and_logic() {
    assert!(matches!(Value::Number(1).less(&Value::Number(2)), Value::Bool(true)));
    assert!(matches!(Value::Number(2).less(&Value::Number(2)), Value::Bool(false)));
    assert!(matches!(Value::Number(2).less_equal(&Value::Number(2)), Value::Bool(true)));
    assert!(matches!(Value::Number(3).greater(&Value::Number(2)), Value::Bool(true)));
    assert!(matches!(Value::Number(1).greater_equal(&Value::Number(2)), Value::Bool(false)));
    assert!(matches!(Value::Str("a".to_owned()).less(&Value::Str("b".to_owned())), Value::Bool(false)));
    assert!(matches!(Value::Str("a".to_owned()).equal(&Value::Str("a".to_owned())), Value::Bool(true)));
    assert!(matches!(Value::Nil.equal(&Value::Nil), Value::Bool(true)));
    assert!(matches!(Value::Nil.equal(&Value::Number(0)), Value::Bool(false)));
    assert!(matches!(Value::Number(1).not_equal(&Value::Number(1)), Value::Bool(false)));
    assert!(matches!(
        Value::Sequence(Rc::new(vec![])).equal(&Value::Sequence(Rc::new(vec![]))),
        Value::Bool(false)
    ));
    assert!(matches!(Value::Bool(true).and(&Value::Bool(true)), Value::Bool(true)));
    assert!(matches!(Value::Bool(true).and(&Value::Number(1)), Value::Bool(false)));
    assert!(matches!(Value::Bool(false).or(&Value::Bool(true)), Value::Bool(true)));
    assert!(matches!(Value::Bool(true).xor(&Value::Bool(true)), Value::Bool(false)));
    assert!(matches!(Value::Nil.not(), Value::Nil));
    assert!(matches!(Value::Number(0).not(), Value::Bool(true)));
    assert!(matches!(Value::Str("x".to_owned()).not(), Value::Bool(false)));
    assert!(matches!(Value::Str("x".to_owned()).neg(), Value::Nil));
}

#[test]
fn operators_are_applied_by_their_kind() {
    assert!(matches!(
        apply_binary(BinaryOperator::Power, Value::Number(2), Value::Number(10)),
        Value::Number(1024)
    ));
    assert!(matches!(
        apply_binary(BinaryOperator::Substract, Value::Number(2), Value::Number(10)),
        Value::Number(-8)
    ));
    assert!(matches!(apply_unary(UnaryOperator::PlusPlus, Value::Number(2)), Value::Number(3)));
    assert!(matches!(apply_unary(UnaryOperator::MinusMinus, Value::Number(2)), Value::Number(1)));
    assert!(matches!(apply_unary(UnaryOperator::BitNot, Value::Number(2)), Value::Bool(false)));
    assert!(matches!(apply_unary(UnaryOperator::Plus, Value::Bool(true)), Value::Bool(true)));
}

#[test]
fn what_a_call_gives_back() {
    assert!(matches!(call_result(ControlFlow::Return(Value::Number(1))), Value::Number(1)));
    assert!(matches!(call_result(ControlFlow::Throw(Value::Number(1))), Value::Error(e) if e == "1"));
    assert!(matches!(call_result(ControlFlow::Normal), Value::Nil));
    assert!(matches!(call_result(ControlFlow::Break), Value::Nil));
    assert!(matches!(call_result(ControlFlow::Continue), Value::Nil));
}

#[test]
fn values_as_they_are_written() {
    assert_eq!(text(Value::Nil), "None");
    assert_eq!(text(Value::Number(i64::MIN)), "-9223372036854775808");
    assert_eq!(text(Value::Number(0)), "0");
    assert_eq!(text(Value::Bool(false)), "false");
    assert_eq!(text(Value::ScopeRef(Handle { index: 3, generation: u64::MAX })), "scope#3.18446744073709551615");
    assert_eq!(
        text(Value::Sequence(Rc::new(vec![Value::Nil, Value::Sequence(Rc::new(vec![Value::Number(1)]))]))),
        "[None, [1]]"
    );
    let copy = Value::Str("same".to_owned()).duplicate();
    assert_eq!(text(copy), "same");
    let items = Value::Sequence(Rc::new(vec![Value::Number(1), Value::Str("b".to_owned())]));
    let shared = items.duplicate();
    match (&items, &shared) {
        (Value::Sequence(a), Value::Sequence(b)) => assert!(Rc::ptr_eq(a, b)),
        _ => panic!("the copy of a sequence is a sequence"),
    }
    assert_eq!(text(shared), "[1, b]");
}

#[test]
fn the_file_of_an_import_is_a_sibling() {
    assert_eq!(import_path("dir/main.syms", "lib"), "dir/lib.syms");
    assert_eq!(import_path("dir/main.syms", "lib.syms"), "dir/lib.syms");
    assert_eq!(import_path("main.syms", "lib"), "lib.syms");
    assert_eq!(import_path("/main.syms", "sub/lib"), "/sub/lib.syms");
    assert_eq!(import_path("a/b/c.syms", "syms"), "a/b/syms.syms");
    assert_eq!(import_path("", ""), ".syms");
}

#[test]
fn a_generated_name_has_sixteen_letters_and_digits() {
    let first = symboscript::native::hashmap::gen_id();
    let second = symboscript::native::hashmap::gen_id();
    assert_eq!(first.chars().count(), 16);
    assert!(first.chars().all(|c| c.is_ascii_alphanumeric()));
    assert!(second.chars().all(|c| c.is_ascii_alphanumeric()));
    assert_ne!(first, second);
}
