//! Each built-in combinator, exercised through full evaluation, with its
//! error cases.

use compose_core::combinator::{Combinator, EvaluationError};
use compose_core::integer::Integer;
use compose_core::namespace::{Namespace, UnresolvedFunction, UnresolvedTerm};
use compose_core::term::Term;
use compose_core::value::Value;
use compose_core::vm::{EvaluationOutcome, VirtualMachine};

const FUEL: u64 = 1_000_000;

fn int_term(text: &str) -> UnresolvedTerm {
    UnresolvedTerm::Resolved(Term::Data(Value::Integer(
        Integer::from_string(text).expect("test literal"),
    )))
}

fn bool_term(b: bool) -> UnresolvedTerm {
    UnresolvedTerm::Resolved(Term::Data(Value::Boolean(b)))
}

fn comb(c: Combinator) -> UnresolvedTerm {
    UnresolvedTerm::Resolved(Term::Combinator(c))
}

fn lambda(body: Vec<UnresolvedTerm>) -> UnresolvedTerm {
    UnresolvedTerm::UnresolvedLambda(body)
}

fn eval(body: Vec<UnresolvedTerm>) -> Result<Vec<Value>, EvaluationError> {
    let mut ns = Namespace::new();
    ns.define(&UnresolvedFunction::new("program".to_string(), body))
        .expect("the test body resolves");
    let reference = ns.get(&"program".to_string()).expect("defined");
    let mut vm = VirtualMachine::new();
    match vm.evaluate(ns.function_storage(), &reference, FUEL) {
        EvaluationOutcome::Completed => {
            let mut out = Vec::new();
            for v in vm.data().items().iter() {
                out.push(v.duplicate());
            }
            Ok(out)
        }
        EvaluationOutcome::Halted { error } => Err(error),
        EvaluationOutcome::Exhausted => panic!("test program ran out of budget"),
    }
}

fn render(values: &[Value]) -> Vec<String> {
    values
        .iter()
        .map(|v| match v {
            Value::Integer(i) => i.to_string(),
            Value::Boolean(b) => format!("{}", b),
            Value::List(items) => format!("[{}]", render(items).join(" ")),
            Value::Lambda(_) => "|..|".to_string(),
        })
        .collect()
}

fn expect_stack(body: Vec<UnresolvedTerm>, expected: &[&str]) {
    let values = eval(body).expect("evaluation succeeds");
    let rendered = render(&values);
    let expected: Vec<String> = expected.iter().map(|s| s.to_string()).collect();
    assert_eq!(rendered, expected);
}

fn expect_error(body: Vec<UnresolvedTerm>, expected: EvaluationError) {
    match eval(body) {
        Ok(_) => panic!("expected the evaluation to fail"),
        Err(error) => assert_eq!(error, expected),
    }
}

#[test]
fn arithmetic_combinators() {
    expect_stack(vec![int_term("2"), int_term("3"), comb(Combinator::Add)], &["5"]);
    expect_stack(vec![int_term("2"), int_term("3"), comb(Combinator::Subtract)], &["-1"]);
    expect_stack(vec![int_term("4"), int_term("3"), comb(Combinator::Multiply)], &["12"]);
    expect_stack(vec![int_term("9"), int_term("2"), comb(Combinator::Divide)], &["4"]);
    expect_stack(vec![int_term("9"), int_term("2"), comb(Combinator::Modulo)], &["1"]);
}

#[test]
fn arithmetic_errors() {
    expect_error(
        vec![int_term("1"), comb(Combinator::Add)],
        EvaluationError::InsufficientStack { combinator: Combinator::Add },
    );
    expect_error(
        vec![bool_term(true), int_term("1"), comb(Combinator::Add)],
        EvaluationError::TypeMismatch { combinator: Combinator::Add },
    );
    expect_error(
        vec![int_term("1"), int_term("0"), comb(Combinator::Divide)],
        EvaluationError::TypeMismatch { combinator: Combinator::Divide },
    );
    expect_error(
        vec![int_term("1"), int_term("0"), comb(Combinator::Modulo)],
        EvaluationError::TypeMismatch { combinator: Combinator::Modulo },
    );
}

#[test]
fn boolean_combinators() {
    expect_stack(vec![bool_term(true), bool_term(false), comb(Combinator::And)], &["false"]);
    expect_stack(vec![bool_term(true), bool_term(false), comb(Combinator::Or)], &["true"]);
    expect_stack(
        vec![bool_term(true), bool_term(true), comb(Combinator::ExclusiveOr)],
        &["false"],
    );
    expect_stack(vec![bool_term(false), comb(Combinator::Not)], &["true"]);
    expect_error(
        vec![int_term("1"), comb(Combinator::Not)],
        EvaluationError::TypeMismatch { combinator: Combinator::Not },
    );
    expect_error(
        vec![comb(Combinator::Not)],
        EvaluationError::InsufficientStack { combinator: Combinator::Not },
    );
}

#[test]
fn comparison_combinators() {
    expect_stack(vec![int_term("2"), int_term("3"), comb(Combinator::GreaterThan)], &["false"]);
    expect_stack(vec![int_term("2"), int_term("3"), comb(Combinator::LessThan)], &["true"]);
    expect_error(
        vec![bool_term(true), int_term("3"), comb(Combinator::GreaterThan)],
        EvaluationError::TypeMismatch { combinator: Combinator::GreaterThan },
    );
}

#[test]
fn equality_is_structural_and_cross_type_values_are_unequal() {
    expect_stack(vec![int_term("3"), int_term("3"), comb(Combinator::Equality)], &["true"]);
    expect_stack(vec![int_term("3"), int_term("4"), comb(Combinator::Equality)], &["false"]);
    expect_stack(vec![int_term("1"), bool_term(true), comb(Combinator::Equality)], &["false"]);
}

#[test]
fn stack_manipulation_combinators() {
    expect_stack(vec![int_term("7"), comb(Combinator::Duplicate)], &["7", "7"]);
    expect_stack(vec![int_term("1"), int_term("2"), comb(Combinator::Hop)], &["1", "2", "1"]);
    expect_stack(
        vec![int_term("1"), int_term("2"), int_term("3"), comb(Combinator::Rotate)],
        &["3", "1", "2"],
    );
    expect_error(
        vec![int_term("1"), int_term("2"), comb(Combinator::Rotate)],
        EvaluationError::InsufficientStack { combinator: Combinator::Rotate },
    );
    expect_error(
        vec![int_term("1"), comb(Combinator::Swap)],
        EvaluationError::InsufficientStack { combinator: Combinator::Swap },
    );
    expect_error(
        vec![comb(Combinator::Discard)],
        EvaluationError::InsufficientStack { combinator: Combinator::Discard },
    );
    expect_error(
        vec![comb(Combinator::Hop)],
        EvaluationError::InsufficientStack { combinator: Combinator::Hop },
    );
}

#[test]
fn pick_wraps_its_index() {
    // Stack [10, 20, 30]; index 0 picks the top, 1 the next, -1 wraps to
    // the bottom.
    expect_stack(
        vec![int_term("10"), int_term("20"), int_term("30"), int_term("0"), comb(Combinator::Pick)],
        &["10", "20", "30", "30"],
    );
    expect_stack(
        vec![int_term("10"), int_term("20"), int_term("30"), int_term("1"), comb(Combinator::Pick)],
        &["10", "20", "30", "20"],
    );
    expect_stack(
        vec![
            int_term("10"),
            int_term("20"),
            int_term("30"),
            int_term("-1"),
            comb(Combinator::Pick),
        ],
        &["10", "20", "30", "10"],
    );
    expect_error(
        vec![int_term("0"), comb(Combinator::Pick)],
        EvaluationError::InsufficientStack { combinator: Combinator::Pick },
    );
    expect_error(
        vec![int_term("1"), bool_term(true), comb(Combinator::Pick)],
        EvaluationError::TypeMismatch { combinator: Combinator::Pick },
    );
}

fn empty_list() -> UnresolvedTerm {
    UnresolvedTerm::Resolved(Term::Data(Value::List(Vec::new())))
}

fn int_list(texts: &[&str]) -> UnresolvedTerm {
    let items = texts
        .iter()
        .map(|t| Value::Integer(Integer::from_string(t).expect("list literal")))
        .collect();
    UnresolvedTerm::Resolved(Term::Data(Value::List(items)))
}

#[test]
fn list_combinators() {
    expect_stack(vec![int_list(&["1", "2"]), int_term("3"), comb(Combinator::Append)], &["[1 2 3]"]);
    expect_stack(
        vec![int_list(&["1"]), int_list(&["2", "3"]), comb(Combinator::Join)],
        &["[1 2 3]"],
    );
    expect_stack(vec![int_list(&["4", "5", "6"]), comb(Combinator::Count)], &["3"]);
    expect_stack(vec![empty_list(), comb(Combinator::Count)], &["0"]);
    expect_stack(vec![int_list(&["4", "5", "6"]), comb(Combinator::Head)], &["4"]);
    expect_stack(vec![int_list(&["4", "5", "6"]), comb(Combinator::Tail)], &["[5 6]"]);
    expect_error(
        vec![empty_list(), comb(Combinator::Head)],
        EvaluationError::InsufficientStack { combinator: Combinator::Head },
    );
    expect_error(
        vec![empty_list(), comb(Combinator::Tail)],
        EvaluationError::InsufficientStack { combinator: Combinator::Tail },
    );
    expect_error(
        vec![int_term("1"), comb(Combinator::Count)],
        EvaluationError::TypeMismatch { combinator: Combinator::Count },
    );
    expect_error(
        vec![int_term("1"), int_term("2"), comb(Combinator::Append)],
        EvaluationError::TypeMismatch { combinator: Combinator::Append },
    );
}

#[test]
fn map_applies_the_lambda_to_each_element_in_order() {
    // [1 2 3] (copy +) map  =>  [2 4 6]
    expect_stack(
        vec![
            int_list(&["1", "2", "3"]),
            lambda(vec![comb(Combinator::Duplicate), comb(Combinator::Add)]),
            comb(Combinator::MapList),
        ],
        &["[2 4 6]"],
    );
    expect_stack(
        vec![empty_list(), lambda(vec![comb(Combinator::Duplicate)]), comb(Combinator::MapList)],
        &["[]"],
    );
}

#[test]
fn filter_keeps_the_accepted_elements() {
    // [1 2 3 4] (2 %  0 =) filter  =>  [2 4]
    expect_stack(
        vec![
            int_list(&["1", "2", "3", "4"]),
            lambda(vec![
                int_term("2"),
                comb(Combinator::Modulo),
                int_term("0"),
                comb(Combinator::Equality),
            ]),
            comb(Combinator::Filter),
        ],
        &["[2 4]"],
    );
}

#[test]
fn filter_requires_boolean_verdicts() {
    expect_error(
        vec![
            int_list(&["1"]),
            lambda(vec![comb(Combinator::Duplicate)]),
            comb(Combinator::Filter),
        ],
        EvaluationError::TypeMismatch { combinator: Combinator::Filter },
    );
}

#[test]
fn fold_reduces_with_the_accumulator() {
    // [1 2 3 4] 0 (+) fold  =>  10
    expect_stack(
        vec![
            int_list(&["1", "2", "3", "4"]),
            int_term("0"),
            lambda(vec![comb(Combinator::Add)]),
            comb(Combinator::Fold),
        ],
        &["10"],
    );
    // Folding an empty list yields the accumulator untouched.
    expect_stack(
        vec![empty_list(), int_term("9"), lambda(vec![comb(Combinator::Add)]), comb(Combinator::Fold)],
        &["9"],
    );
}

#[test]
fn branch_selects_by_the_boolean_beneath_the_lambdas() {
    // true (1) (2) if  =>  1     false (1) (2) if  =>  2
    expect_stack(
        vec![
            bool_term(true),
            lambda(vec![int_term("1")]),
            lambda(vec![int_term("2")]),
            comb(Combinator::If),
        ],
        &["1"],
    );
    expect_stack(
        vec![
            bool_term(false),
            lambda(vec![int_term("1")]),
            lambda(vec![int_term("2")]),
            comb(Combinator::If),
        ],
        &["2"],
    );
    expect_error(
        vec![
            int_term("7"),
            lambda(vec![int_term("1")]),
            lambda(vec![int_term("2")]),
            comb(Combinator::If),
        ],
        EvaluationError::TypeMismatch { combinator: Combinator::If },
    );
}

#[test]
fn apply_runs_the_lambda_on_top() {
    expect_stack(
        vec![int_term("4"), lambda(vec![int_term("5"), comb(Combinator::Add)]), comb(Combinator::Apply)],
        &["9"],
    );
    expect_error(
        vec![int_term("4"), comb(Combinator::Apply)],
        EvaluationError::TypeMismatch { combinator: Combinator::Apply },
    );
    expect_error(
        vec![comb(Combinator::Apply)],
        EvaluationError::InsufficientStack { combinator: Combinator::Apply },
    );
}

#[test]
fn combinator_tokens() {
    assert_eq!(Combinator::Add.name(), "+");
    assert_eq!(Combinator::Modulo.name(), "%");
    assert_eq!(Combinator::MapList.name(), "map");
    assert_eq!(Combinator::Duplicate.name(), "copy");
    assert_eq!(Combinator::Discard.name(), "drop");
    assert_eq!(Combinator::If.name(), "if");
    assert_eq!(Combinator::Pick.name(), "pick");
}
