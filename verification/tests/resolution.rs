//! The namespace: atomic definitions, complete missing-name reports, and
//! the arena's stability.

use compose_core::combinator::Combinator;
use compose_core::integer::Integer;
use compose_core::namespace::{Namespace, UnresolvedFunction, UnresolvedTerm};
use compose_core::storage::{FunctionReference, FunctionStorage, LambdaReference};
use compose_core::term::Term;
use compose_core::value::Value;
use compose_core::vm::{EvaluationOutcome, VirtualMachine};

fn int_term(text: &str) -> UnresolvedTerm {
    UnresolvedTerm::Resolved(Term::Data(Value::Integer(
        Integer::from_string(text).expect("test literal"),
    )))
}

fn comb(c: Combinator) -> UnresolvedTerm {
    UnresolvedTerm::Resolved(Term::Combinator(c))
}

fn app(name: &str) -> UnresolvedTerm {
    UnresolvedTerm::UnresolvedApplication(name.to_string())
}

fn lambda(body: Vec<UnresolvedTerm>) -> UnresolvedTerm {
    UnresolvedTerm::UnresolvedLambda(body)
}

fn body_tokens(storage: &FunctionStorage, reference: FunctionReference) -> Vec<String> {
    storage
        .get(reference)
        .iter()
        .map(|t| match t {
            Term::Application(fr) => format!("app:{}", fr.function_index()),
            Term::Combinator(c) => c.name().to_string(),
            Term::Data(Value::Integer(i)) => i.to_string(),
            Term::Data(_) => "data".to_string(),
            Term::Recursion => "@".to_string(),
        })
        .collect()
}

#[test]
fn stored_bodies_survive_later_definitions() {
    let mut ns = Namespace::new();
    let first = ns
        .define(&UnresolvedFunction::new(
            "one".to_string(),
            vec![int_term("1"), comb(Combinator::Add)],
        ))
        .expect("resolves");
    let before = body_tokens(ns.function_storage(), first);
    assert_eq!(before, vec!["1".to_string(), "+".to_string()]);

    ns.define(&UnresolvedFunction::new(
        "two".to_string(),
        vec![int_term("2"), app("one")],
    ))
    .expect("resolves");
    ns.define(&UnresolvedFunction::new(
        "three".to_string(),
        vec![lambda(vec![int_term("3")]), comb(Combinator::Apply)],
    ))
    .expect("resolves");

    let after = body_tokens(ns.function_storage(), first);
    assert_eq!(after, before);
}

#[test]
fn failed_definitions_leave_the_name_table_unchanged() {
    let mut ns = Namespace::new();
    ns.define(&UnresolvedFunction::new("keep".to_string(), vec![int_term("1")]))
        .expect("resolves");
    let kept = ns.get(&"keep".to_string()).expect("bound");

    let missing = ns
        .define(&UnresolvedFunction::new(
            "broken".to_string(),
            vec![app("keep"), app("nowhere")],
        ))
        .expect_err("nowhere is missing");
    assert_eq!(missing, vec!["nowhere".to_string()]);

    assert!(ns.get(&"broken".to_string()).is_none());
    let still = ns.get(&"keep".to_string()).expect("still bound");
    assert_eq!(still.function_index(), kept.function_index());
}

#[test]
fn missing_names_are_collected_across_nested_lambdas_without_duplicates() {
    let mut ns = Namespace::new();
    ns.define(&UnresolvedFunction::new("known".to_string(), vec![int_term("1")]))
        .expect("resolves");
    let missing = ns
        .define(&UnresolvedFunction::new(
            "f".to_string(),
            vec![
                app("alpha"),
                lambda(vec![app("beta"), lambda(vec![app("gamma"), app("alpha")])]),
                app("known"),
                app("beta"),
            ],
        ))
        .expect_err("three names are missing");
    let mut sorted = missing.clone();
    sorted.sort();
    assert_eq!(
        sorted,
        vec!["alpha".to_string(), "beta".to_string(), "gamma".to_string()]
    );
}

#[test]
fn a_use_of_the_name_being_defined_resolves_to_itself() {
    let mut ns = Namespace::new();
    let reference = ns
        .define(&UnresolvedFunction::new(
            "again".to_string(),
            vec![app("again")],
        ))
        .expect("self reference resolves to the new definition");
    let tokens = body_tokens(ns.function_storage(), reference);
    assert_eq!(tokens, vec![format!("app:{}", reference.function_index())]);
}

#[test]
fn names_can_be_looked_up_in_both_directions() {
    let mut ns = Namespace::new();
    let inc = ns
        .define(&UnresolvedFunction::new(
            "inc".to_string(),
            vec![int_term("1"), comb(Combinator::Add)],
        ))
        .expect("resolves");
    assert_eq!(ns.name_of(&inc), Some(&"inc".to_string()));
    let anonymous = ns
        .resolve_anonymous(&vec![int_term("9")])
        .expect("resolves");
    assert_eq!(ns.name_of(&anonymous), None);
    // A rebound name no longer names its old reference.
    let second = ns
        .define(&UnresolvedFunction::new("inc".to_string(), vec![int_term("2")]))
        .expect("resolves");
    assert_eq!(ns.name_of(&second), Some(&"inc".to_string()));
    assert_eq!(ns.name_of(&inc), None);
}

#[test]
fn redefinition_rebinds_the_name() {
    let mut ns = Namespace::new();
    let first = ns
        .define(&UnresolvedFunction::new("n".to_string(), vec![int_term("1")]))
        .expect("resolves");
    let second = ns
        .define(&UnresolvedFunction::new("n".to_string(), vec![int_term("2")]))
        .expect("resolves");
    assert_ne!(first.function_index(), second.function_index());
    let bound = ns.get(&"n".to_string()).expect("bound");
    assert_eq!(bound.function_index(), second.function_index());
}

#[test]
fn accessors_round_trip() {
    let body = vec![int_term("1"), comb(Combinator::Add)];
    let f = UnresolvedFunction::new("inc".to_string(), body);
    assert_eq!(f.name(), "inc");
    assert_eq!(f.body().len(), 2);
}

#[test]
fn composed_lambdas_concatenate_their_bodies() {
    let mut ns = Namespace::new();
    let a = ns
        .define(&UnresolvedFunction::new("a".to_string(), vec![int_term("1")]))
        .expect("resolves");
    let b = ns
        .define(&UnresolvedFunction::new("b".to_string(), vec![int_term("2")]))
        .expect("resolves");
    let la = LambdaReference::from_function(a);
    let lb = LambdaReference::from_function(b);
    let composed = la.compose(lb);
    assert_eq!(
        composed.indices().as_slice(),
        &[a.function_index(), b.function_index()]
    );
    let terms = ns.function_storage().get_composed(&composed);
    let rendered: Vec<String> = terms
        .iter()
        .map(|t| match t {
            Term::Data(Value::Integer(i)) => i.to_string(),
            _ => "?".to_string(),
        })
        .collect();
    assert_eq!(rendered, vec!["1".to_string(), "2".to_string()]);
}

#[test]
fn anonymous_resolution_binds_no_name_and_evaluates() {
    let mut ns = Namespace::new();
    ns.define(&UnresolvedFunction::new(
        "inc".to_string(),
        vec![int_term("1"), comb(Combinator::Add)],
    ))
    .expect("resolves");

    let missing = ns
        .resolve_anonymous(&vec![app("nope")])
        .expect_err("nope is missing");
    assert_eq!(missing, vec!["nope".to_string()]);

    let reference = ns
        .resolve_anonymous(&vec![int_term("4"), app("inc")])
        .expect("resolves");
    assert!(ns.get(&String::new()).is_none());

    let mut vm = VirtualMachine::new();
    let outcome = vm.evaluate(ns.function_storage(), &reference, 10_000);
    assert!(matches!(outcome, EvaluationOutcome::Completed));
    let items = vm.data().items();
    assert_eq!(items.len(), 1);
    match &items[0] {
        Value::Integer(i) => assert_eq!(i.to_string(), "5"),
        _ => panic!("expected an integer"),
    }
}

#[test]
fn reserve_and_store_round_trip() {
    let mut storage = FunctionStorage::new();
    let r = storage.reserve(2);
    assert_eq!(r.function_index(), 0);
    assert_eq!(storage.count(), 1);
    let body = vec![
        Term::Combinator(Combinator::Duplicate),
        Term::Combinator(Combinator::Add),
    ];
    storage.store(r, &body);
    let read = storage.get(FunctionReference::from_function_index(0));
    assert_eq!(read.len(), 2);
    assert!(matches!(read[0], Term::Combinator(Combinator::Duplicate)));
    assert!(matches!(read[1], Term::Combinator(Combinator::Add)));
    assert_eq!(storage.body_length(0), 2);
}
