//! End-to-end scenarios: definitions, recursion, composition.

use compose_core::combinator::{Combinator, EvaluationError};
use compose_core::integer::Integer;
use compose_core::namespace::{Namespace, UnresolvedFunction, UnresolvedTerm};
use compose_core::term::Term;
use compose_core::value::Value;
use compose_core::vm::{EvaluationOutcome, VirtualMachine};

const FUEL: u64 = 1_000_000;

fn int_term(text: &str) -> UnresolvedTerm {
    UnresolvedTerm::Resolved(Term::Data(Value::Integer(
        Integer::from_string(text).expect("test literal"),
    )))
}

fn comb(c: Combinator) -> UnresolvedTerm {
    UnresolvedTerm::Resolved(Term::Combinator(c))
}

fn app(name: &str) -> UnresolvedTerm {
    UnresolvedTerm::UnresolvedApplication(name.to_string())
}

fn lambda(body: Vec<UnresolvedTerm>) -> UnresolvedTerm {
    UnresolvedTerm::UnresolvedLambda(body)
}

fn run(ns: &Namespace, vm: &mut VirtualMachine, name: &str) {
    let reference = ns.get(&name.to_string()).expect("defined");
    let outcome = vm.evaluate(ns.function_storage(), &reference, FUEL);
    assert!(matches!(outcome, EvaluationOutcome::Completed));
}

fn stack_as_integers(vm: &VirtualMachine) -> Vec<String> {
    vm.data()
        .items()
        .iter()
        .map(|v| match v {
            Value::Integer(i) => i.to_string(),
            Value::Boolean(b) => format!("{}", b),
            _ => "?".to_string(),
        })
        .collect()
}

#[test]
fn doubling_a_number() {
    // double : copy + ;  then evaluate  3 double
    let mut ns = Namespace::new();
    ns.define(&UnresolvedFunction::new(
        "double".to_string(),
        vec![comb(Combinator::Duplicate), comb(Combinator::Add)],
    ))
    .expect("double resolves");
    ns.define(&UnresolvedFunction::new(
        "program".to_string(),
        vec![int_term("3"), app("double")],
    ))
    .expect("program resolves");
    let mut vm = ns.create_virtual_machine();
    run(&ns, &mut vm, "program");
    assert_eq!(stack_as_integers(&vm), vec!["6".to_string()]);
}

#[test]
fn recursive_factorial() {
    // fact : copy 0 = (drop 1) (copy 1 - fact *) if ;  then  5 fact
    let mut ns = Namespace::new();
    ns.define(&UnresolvedFunction::new(
        "fact".to_string(),
        vec![
            comb(Combinator::Duplicate),
            int_term("0"),
            comb(Combinator::Equality),
            lambda(vec![comb(Combinator::Discard), int_term("1")]),
            lambda(vec![
                comb(Combinator::Duplicate),
                int_term("1"),
                comb(Combinator::Subtract),
                app("fact"),
                comb(Combinator::Multiply),
            ]),
            comb(Combinator::If),
        ],
    ))
    .expect("fact resolves; the recursive use binds to the new definition");
    ns.define(&UnresolvedFunction::new(
        "program".to_string(),
        vec![int_term("5"), app("fact")],
    ))
    .expect("program resolves");
    let mut vm = ns.create_virtual_machine();
    run(&ns, &mut vm, "program");
    assert_eq!(stack_as_integers(&vm), vec!["120".to_string()]);
}

#[test]
fn missing_names_are_reported_together_and_leave_no_trace() {
    // f : g h ;  with neither g nor h defined.
    let mut ns = Namespace::new();
    let f = UnresolvedFunction::new("f".to_string(), vec![app("g"), app("h")]);
    let missing = ns.define(&f).expect_err("g and h are missing");
    let mut sorted: Vec<String> = missing.clone();
    sorted.sort();
    assert_eq!(sorted, vec!["g".to_string(), "h".to_string()]);
    assert!(ns.get(&"f".to_string()).is_none());

    // After defining g and h, the very same definition succeeds.
    ns.define(&UnresolvedFunction::new("g".to_string(), vec![int_term("1")]))
        .expect("g resolves");
    ns.define(&UnresolvedFunction::new("h".to_string(), vec![comb(Combinator::Add)]))
        .expect("h resolves");
    ns.define(&f).expect("f resolves once its dependencies exist");
    assert!(ns.get(&"f".to_string()).is_some());

    // 4 f  computes 4 + 1.
    ns.define(&UnresolvedFunction::new(
        "program".to_string(),
        vec![int_term("4"), app("f")],
    ))
    .expect("program resolves");
    let mut vm = ns.create_virtual_machine();
    run(&ns, &mut vm, "program");
    assert_eq!(stack_as_integers(&vm), vec!["5".to_string()]);
}

#[test]
fn swap_and_drop_shapes() {
    // 1 2 swap  =>  [2, 1];   1 2 drop  =>  [1]
    let mut ns = Namespace::new();
    ns.define(&UnresolvedFunction::new(
        "swapped".to_string(),
        vec![int_term("1"), int_term("2"), comb(Combinator::Swap)],
    ))
    .expect("resolves");
    ns.define(&UnresolvedFunction::new(
        "dropped".to_string(),
        vec![int_term("1"), int_term("2"), comb(Combinator::Discard)],
    ))
    .expect("resolves");

    let mut vm = ns.create_virtual_machine();
    run(&ns, &mut vm, "swapped");
    assert_eq!(
        stack_as_integers(&vm),
        vec!["2".to_string(), "1".to_string()]
    );

    let mut vm2 = ns.create_virtual_machine();
    run(&ns, &mut vm2, "dropped");
    assert_eq!(stack_as_integers(&vm2), vec!["1".to_string()]);
}

#[test]
fn copy_on_empty_stack_names_the_operation() {
    let mut ns = Namespace::new();
    ns.define(&UnresolvedFunction::new(
        "bad".to_string(),
        vec![comb(Combinator::Duplicate)],
    ))
    .expect("resolves");
    let reference = ns.get(&"bad".to_string()).expect("defined");
    let mut vm = ns.create_virtual_machine();
    let outcome = vm.evaluate(ns.function_storage(), &reference, FUEL);
    match outcome {
        EvaluationOutcome::Halted { error } => {
            assert_eq!(
                error,
                EvaluationError::InsufficientStack {
                    combinator: Combinator::Duplicate
                }
            );
            assert_eq!(error.combinator().name(), "copy");
        }
        _ => panic!("expected an insufficient-stack error"),
    }
}

#[test]
fn composition_runs_left_lambda_first() {
    // (1 2) (3) compose apply  =>  [1, 2, 3] bottom to top.
    let mut ns = Namespace::new();
    ns.define(&UnresolvedFunction::new(
        "program".to_string(),
        vec![
            lambda(vec![int_term("1"), int_term("2")]),
            lambda(vec![int_term("3")]),
            comb(Combinator::Compose),
            comb(Combinator::Apply),
        ],
    ))
    .expect("resolves");
    let mut vm = ns.create_virtual_machine();
    run(&ns, &mut vm, "program");
    assert_eq!(
        stack_as_integers(&vm),
        vec!["1".to_string(), "2".to_string(), "3".to_string()]
    );
}

#[test]
fn under_restores_the_saved_value_on_top() {
    // Stack before `under`: [10, 20, |copy +|]. `under` pops the lambda and
    // saves the 20 beneath it, runs the lambda against [10] giving [20],
    // then restores the saved value on top: [20, 20].
    let mut ns = Namespace::new();
    ns.define(&UnresolvedFunction::new(
        "program".to_string(),
        vec![
            int_term("10"),
            int_term("20"),
            lambda(vec![comb(Combinator::Duplicate), comb(Combinator::Add)]),
            comb(Combinator::Under),
        ],
    ))
    .expect("resolves");
    let mut vm = ns.create_virtual_machine();
    run(&ns, &mut vm, "program");
    assert_eq!(
        stack_as_integers(&vm),
        vec!["20".to_string(), "20".to_string()]
    );
}

#[test]
fn exhausted_budget_is_reported() {
    // loop : loop ;  never terminates; a small budget runs out.
    let mut ns = Namespace::new();
    ns.define(&UnresolvedFunction::new(
        "forever".to_string(),
        vec![app("forever")],
    ))
    .expect("resolves");
    let reference = ns.get(&"forever".to_string()).expect("defined");
    let mut vm = ns.create_virtual_machine();
    let outcome = vm.evaluate(ns.function_storage(), &reference, 1000);
    assert!(matches!(outcome, EvaluationOutcome::Exhausted));
}
