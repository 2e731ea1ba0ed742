//! The data stack and the value type.

use compose_core::integer::Integer;
use compose_core::stack::DataStack;
use compose_core::storage::LambdaReference;
use compose_core::syntax::{SyntaxError, SyntaxErrorVariant};
use compose_core::value::Value;

fn int_value(n: usize) -> Value {
    Value::Integer(Integer::from_usize(n))
}

#[test]
fn push_then_pop_returns_the_value() {
    let mut stack = DataStack::new();
    stack.push(int_value(7));
    let popped = stack.pop().expect("one value");
    assert!(popped.equals(&int_value(7)));
    assert!(stack.pop().is_none());
}

#[test]
fn size_counts_pushes_minus_pops() {
    let mut stack = DataStack::new();
    assert_eq!(stack.size(), 0);
    for n in 0..5 {
        stack.push(int_value(n));
    }
    assert_eq!(stack.size(), 5);
    let _ = stack.pop();
    let _ = stack.pop();
    assert_eq!(stack.size(), 3);
    stack.push(int_value(9));
    assert_eq!(stack.size(), 4);
}

#[test]
fn indexed_access_counts_from_the_top() {
    let mut stack = DataStack::new();
    stack.push(int_value(10));
    stack.push(int_value(20));
    stack.push(int_value(30));
    assert!(stack.get_from_top(0).unwrap().equals(&int_value(30)));
    assert!(stack.get_from_top(2).unwrap().equals(&int_value(10)));
    assert!(stack.get_from_top(3).is_none());
    stack.set_from_top(1, int_value(99));
    assert!(stack.get_from_top(1).unwrap().equals(&int_value(99)));
}

#[test]
fn values_compare_structurally() {
    let a = Value::List(vec![int_value(1), Value::Boolean(true), Value::List(vec![int_value(2)])]);
    let b = Value::List(vec![int_value(1), Value::Boolean(true), Value::List(vec![int_value(2)])]);
    let c = Value::List(vec![int_value(1), Value::Boolean(false), Value::List(vec![int_value(2)])]);
    assert!(a.equals(&b));
    assert!(!a.equals(&c));
    assert!(!a.equals(&int_value(1)));
    assert!(!Value::Boolean(true).equals(&int_value(1)));
}

#[test]
fn lambda_values_compare_by_their_reference_lists() {
    let a = Value::Lambda(LambdaReference::from_function_indices(vec![0, 2]));
    let b = Value::Lambda(LambdaReference::from_function_indices(vec![0, 2]));
    let c = Value::Lambda(LambdaReference::from_function_indices(vec![2, 0]));
    assert!(a.equals(&b));
    assert!(!a.equals(&c));
}

#[test]
fn duplication_is_deep() {
    let original = Value::List(vec![int_value(1), int_value(2)]);
    let copy = original.duplicate();
    assert!(copy.equals(&original));
    // Growing the copy leaves the original alone.
    match copy {
        Value::List(mut items) => {
            items.push(int_value(3));
            let grown = Value::List(items);
            assert!(!grown.equals(&original));
        }
        _ => panic!("expected a list"),
    }
    assert!(original.equals(&Value::List(vec![int_value(1), int_value(2)])));
}

#[test]
fn syntax_errors_carry_their_context() {
    let e = SyntaxError::new(3, SyntaxErrorVariant::ExpectedSemicolon, 10, 14);
    assert_eq!(e.source(), 3);
    assert_eq!(e.kind(), SyntaxErrorVariant::ExpectedSemicolon);
    assert_eq!(e.start(), 10);
    assert_eq!(e.end(), 14);
}
