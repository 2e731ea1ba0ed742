//! Name resolution.
//!
//! A [`Namespace`] owns a [`FunctionStorage`] arena and a table binding
//! function names to references. [`Namespace::define`] resolves a sequence of
//! unresolved terms into stored [`Term`]s: named applications are looked up,
//! references to the name being defined become self references, and nested
//! lambda bodies are resolved recursively into anonymous arena entries.
//!
//! Resolution is atomic and complete: a failed definition reports every
//! unresolvable identifier of the whole body (nested lambdas included) in one
//! pass, and leaves the name table exactly as it was; a successful one binds
//! the name and never disturbs any body stored earlier.

use vstd::prelude::*;
use crate::storage::{
    lemma_valid_term_model_grow, lemma_valid_term_models_grow, FunctionReference, FunctionStorage,
    LambdaReference,
};
use crate::term::{
    lemma_term_models_len, lemma_term_models_push, term_model, term_models, valid_term_model,
    valid_term_models, Term, TermModel,
};
use crate::value::{AbstractValue, Value};

verus! {

/// A term as the external parser hands it over: resolved already, a named
/// application still to be looked up, or a nested lambda body.
pub enum UnresolvedTerm {
    /// A term that needs no resolution.
    Resolved(Term),
    /// Application of a function known only by name.
    UnresolvedApplication(String),
    /// An anonymous body, to be resolved into an arena entry of its own.
    UnresolvedLambda(Vec<UnresolvedTerm>),
}

/// An unresolved term as specifications see it.
pub enum UnresolvedTermModel {
    Resolved { term: TermModel },
    Application { name: Seq<char> },
    Lambda { body: Seq<UnresolvedTermModel> },
}

pub open spec fn unresolved_model(t: UnresolvedTerm) -> UnresolvedTermModel
    decreases t,
{
    match t {
        UnresolvedTerm::Resolved(term) => UnresolvedTermModel::Resolved { term: term_model(term) },
        UnresolvedTerm::UnresolvedApplication(name) => UnresolvedTermModel::Application {
            name: name@,
        },
        UnresolvedTerm::UnresolvedLambda(body) => UnresolvedTermModel::Lambda {
            body: unresolved_models(body@),
        },
    }
}

pub open spec fn unresolved_models(ts: Seq<UnresolvedTerm>) -> Seq<UnresolvedTermModel>
    decreases ts,
{
    if ts.len() == 0 {
        Seq::empty()
    } else {
        seq![unresolved_model(ts[0])] + unresolved_models(ts.drop_first())
    }
}

pub proof fn lemma_unresolved_models_len(ts: Seq<UnresolvedTerm>)
    ensures
        unresolved_models(ts).len() == ts.len(),
    decreases ts,
{
    if ts.len() > 0 {
        lemma_unresolved_models_len(ts.drop_first());
    }
}

pub proof fn lemma_unresolved_models_index(ts: Seq<UnresolvedTerm>, i: int)
    requires
        0 <= i < ts.len(),
    ensures
        unresolved_models(ts).len() == ts.len(),
        unresolved_models(ts)[i] == unresolved_model(ts[i]),
    decreases ts,
{
    lemma_unresolved_models_len(ts);
    if i > 0 {
        lemma_unresolved_models_index(ts.drop_first(), i - 1);
    }
}

/// An unresolved term is valid for an arena of `n` bodies when every
/// already-resolved term inside it is.
pub open spec fn valid_unresolved_term(t: UnresolvedTermModel, n: nat) -> bool
    decreases t,
{
    match t {
        UnresolvedTermModel::Resolved { term } => valid_term_model(term, n),
        UnresolvedTermModel::Application { .. } => true,
        UnresolvedTermModel::Lambda { body } => valid_unresolved_terms(body, n),
    }
}

pub open spec fn valid_unresolved_terms(ts: Seq<UnresolvedTermModel>, n: nat) -> bool
    decreases ts,
{
    if ts.len() == 0 {
        true
    } else {
        valid_unresolved_term(ts[0], n) && valid_unresolved_terms(ts.drop_first(), n)
    }
}

pub proof fn lemma_valid_unresolved_terms_index(ts: Seq<UnresolvedTermModel>, n: nat, i: int)
    requires
        valid_unresolved_terms(ts, n),
        0 <= i < ts.len(),
    ensures
        valid_unresolved_term(ts[i], n),
    decreases ts,
{
    if i > 0 {
        lemma_valid_unresolved_terms_index(ts.drop_first(), n, i - 1);
    }
}

pub proof fn lemma_valid_unresolved_term_grow(t: UnresolvedTermModel, n: nat, m: nat)
    requires
        valid_unresolved_term(t, n),
        n <= m,
    ensures
        valid_unresolved_term(t, m),
    decreases t,
{
    match t {
        UnresolvedTermModel::Resolved { term } => {
            lemma_valid_term_model_grow(term, n, m);
        },
        UnresolvedTermModel::Lambda { body } => {
            lemma_valid_unresolved_terms_grow(body, n, m);
        },
        _ => {},
    }
}

pub proof fn lemma_valid_unresolved_terms_grow(ts: Seq<UnresolvedTermModel>, n: nat, m: nat)
    requires
        valid_unresolved_terms(ts, n),
        n <= m,
    ensures
        valid_unresolved_terms(ts, m),
    decreases ts,
{
    if ts.len() > 0 {
        lemma_valid_unresolved_term_grow(ts[0], n, m);
        lemma_valid_unresolved_terms_grow(ts.drop_first(), n, m);
    }
}

/// The names that one term cannot resolve against `table` (with `defining`,
/// the name being defined, resolving to a self reference).
pub open spec fn missing_of_term(
    table: Map<Seq<char>, usize>,
    defining: Seq<char>,
    t: UnresolvedTermModel,
) -> Set<Seq<char>>
    decreases t,
{
    match t {
        UnresolvedTermModel::Resolved { .. } => Set::empty(),
        UnresolvedTermModel::Application { name } => if name == defining || table.contains_key(
            name,
        ) {
            Set::empty()
        } else {
            Set::empty().insert(name)
        },
        UnresolvedTermModel::Lambda { body } => missing_of_body(table, defining, body),
    }
}

/// The complete set of unresolvable names of a body, nested lambdas
/// included.
pub open spec fn missing_of_body(
    table: Map<Seq<char>, usize>,
    defining: Seq<char>,
    body: Seq<UnresolvedTermModel>,
) -> Set<Seq<char>>
    decreases body,
{
    if body.len() == 0 {
        Set::empty()
    } else {
        missing_of_term(table, defining, body[0]).union(
            missing_of_body(table, defining, body.drop_first()),
        )
    }
}

pub proof fn lemma_missing_of_body_snoc(
    table: Map<Seq<char>, usize>,
    defining: Seq<char>,
    body: Seq<UnresolvedTermModel>,
    j: int,
)
    requires
        0 <= j < body.len(),
    ensures
        missing_of_body(table, defining, body.subrange(0, j + 1)) =~= missing_of_body(
            table,
            defining,
            body.subrange(0, j),
        ).union(missing_of_term(table, defining, body[j])),
    decreases j,
{
    if j == 0 {
        assert(body.subrange(0, 1).drop_first() =~= Seq::<UnresolvedTermModel>::empty());
        assert(body.subrange(0, 0) =~= Seq::<UnresolvedTermModel>::empty());
        assert(body.subrange(0, 1)[0] == body[0]);
    } else {
        let a = body.subrange(0, j + 1);
        let b = body.subrange(0, j);
        assert(a.drop_first() =~= body.drop_first().subrange(0, j));
        assert(b.drop_first() =~= body.drop_first().subrange(0, j - 1));
        lemma_missing_of_body_snoc(table, defining, body.drop_first(), j - 1);
        assert(a[0] == body[0]);
        assert(b[0] == body[0]);
        assert(body.drop_first()[j - 1] == body[j]);
    }
}

/// The resolution of one term against `bodies`, assuming nothing is missing:
/// the (possibly grown) arena contents and the resolved term.
pub open spec fn resolve_first(
    bodies: Seq<Seq<TermModel>>,
    table: Map<Seq<char>, usize>,
    defining: Seq<char>,
    defining_index: usize,
    t: UnresolvedTermModel,
) -> (Seq<Seq<TermModel>>, TermModel)
    decreases t, 0nat,
{
    match t {
        UnresolvedTermModel::Resolved { term } => (bodies, term),
        UnresolvedTermModel::Application { name } => (
            bodies,
            TermModel::Application {
                index: if name == defining {
                    defining_index
                } else {
                    table[name]
                },
            },
        ),
        UnresolvedTermModel::Lambda { body } => {
            let k = bodies.len();
            let reserved = bodies.push(Seq::new(body.len(), |i: int| TermModel::Recursion));
            let resolved = resolve_model(reserved, table, defining, defining_index, body);
            (
                resolved.0.update(k as int, resolved.1),
                TermModel::Data {
                    value: AbstractValue::Lambda { refs: seq![k as usize] },
                },
            )
        },
    }
}

/// The resolution of a whole body against `bodies`, left to right, assuming
/// nothing is missing: the (possibly grown) arena contents and the resolved
/// term sequence.
pub open spec fn resolve_model(
    bodies: Seq<Seq<TermModel>>,
    table: Map<Seq<char>, usize>,
    defining: Seq<char>,
    defining_index: usize,
    body: Seq<UnresolvedTermModel>,
) -> (Seq<Seq<TermModel>>, Seq<TermModel>)
    decreases body, 1nat,
{
    if body.len() == 0 {
        (bodies, Seq::empty())
    } else {
        let first = resolve_first(bodies, table, defining, defining_index, body[0]);
        let rest = resolve_model(first.0, table, defining, defining_index, body.drop_first());
        (rest.0, seq![first.1] + rest.1)
    }
}

pub proof fn lemma_resolve_model_len(
    bodies: Seq<Seq<TermModel>>,
    table: Map<Seq<char>, usize>,
    defining: Seq<char>,
    defining_index: usize,
    body: Seq<UnresolvedTermModel>,
)
    ensures
        resolve_model(bodies, table, defining, defining_index, body).1.len() == body.len(),
    decreases body,
{
    if body.len() > 0 {
        let first = resolve_first(bodies, table, defining, defining_index, body[0]);
        lemma_resolve_model_len(first.0, table, defining, defining_index, body.drop_first());
    }
}

/// Resolving one more term continues from the state the prefix left behind.
pub proof fn lemma_resolve_model_snoc(
    bodies: Seq<Seq<TermModel>>,
    table: Map<Seq<char>, usize>,
    defining: Seq<char>,
    defining_index: usize,
    body: Seq<UnresolvedTermModel>,
    j: int,
)
    requires
        0 <= j < body.len(),
    ensures
        ({
            let prefix = resolve_model(bodies, table, defining, defining_index, body.subrange(0, j));
            let step = resolve_first(prefix.0, table, defining, defining_index, body[j]);
            resolve_model(bodies, table, defining, defining_index, body.subrange(0, j + 1)).0
                =~= step.0 && resolve_model(
                bodies,
                table,
                defining,
                defining_index,
                body.subrange(0, j + 1),
            ).1 =~= prefix.1.push(step.1)
        }),
    decreases j,
{
    if j == 0 {
        assert(body.subrange(0, 1).drop_first() =~= Seq::<UnresolvedTermModel>::empty());
        assert(body.subrange(0, 0) =~= Seq::<UnresolvedTermModel>::empty());
        assert(body.subrange(0, 1)[0] == body[0]);
        let step = resolve_first(bodies, table, defining, defining_index, body[0]);
        assert(resolve_model(step.0, table, defining, defining_index, Seq::empty()).1
            =~= Seq::<TermModel>::empty());
        assert(resolve_model(step.0, table, defining, defining_index, Seq::empty()).0 =~= step.0);
        assert(resolve_model(bodies, table, defining, defining_index, body.subrange(0, 1)).1
            =~= seq![step.1]);
        assert(seq![step.1] =~= Seq::<TermModel>::empty().push(step.1));
    } else {
        let a = body.subrange(0, j + 1);
        let b = body.subrange(0, j);
        assert(a[0] == body[0]);
        assert(b[0] == body[0]);
        let first = resolve_first(bodies, table, defining, defining_index, body[0]);
        let bdf = body.drop_first();
        assert(a.drop_first() =~= bdf.subrange(0, j));
        assert(b.drop_first() =~= bdf.subrange(0, j - 1));
        lemma_resolve_model_snoc(first.0, table, defining, defining_index, bdf, j - 1);
        assert(bdf[j - 1] == body[j]);
        let prefix_rest = resolve_model(first.0, table, defining, defining_index, bdf.subrange(0, j - 1));
        let step = resolve_first(prefix_rest.0, table, defining, defining_index, body[j]);
        assert(resolve_model(bodies, table, defining, defining_index, b).1 =~= seq![first.1]
            + prefix_rest.1);
        assert(resolve_model(bodies, table, defining, defining_index, a).1 =~= seq![first.1] + (
        prefix_rest.1.push(step.1)));
        assert(seq![first.1] + (prefix_rest.1.push(step.1)) =~= (seq![first.1]
            + prefix_rest.1).push(step.1));
    }
}

/// The set of names a list of name strings denotes.
pub open spec fn names_set(ms: Seq<String>) -> Set<Seq<char>>
    decreases ms,
{
    if ms.len() == 0 {
        Set::empty()
    } else {
        names_set(ms.drop_first()).insert(ms[0]@)
    }
}

/// No two entries denote the same name.
pub open spec fn distinct_names(ms: Seq<String>) -> bool {
    forall|i: int, j: int| 0 <= i < j < ms.len() ==> ms[i]@ != ms[j]@
}

pub proof fn lemma_names_set_contains(ms: Seq<String>, k: Seq<char>)
    ensures
        names_set(ms).contains(k) <==> (exists|i: int| 0 <= i < ms.len() && ms[i]@ == k),
    decreases ms,
{
    if ms.len() > 0 {
        lemma_names_set_contains(ms.drop_first(), k);
        if names_set(ms).contains(k) {
            if ms[0]@ == k {
            } else {
                let i = choose|i: int| 0 <= i < ms.drop_first().len() && ms.drop_first()[i]@ == k;
                assert(ms[i + 1]@ == k);
            }
        }
        if exists|i: int| 0 <= i < ms.len() && ms[i]@ == k {
            let i = choose|i: int| 0 <= i < ms.len() && ms[i]@ == k;
            if i > 0 {
                assert(ms.drop_first()[i - 1]@ == k);
            }
        }
    }
}

pub proof fn lemma_names_set_push(ms: Seq<String>, x: String)
    ensures
        names_set(ms.push(x)) =~= names_set(ms).insert(x@),
    decreases ms,
{
    if ms.len() == 0 {
        assert(ms.push(x).drop_first() =~= Seq::<String>::empty());
        assert(ms.push(x)[0] == x);
        assert(names_set(Seq::<String>::empty()) =~= Set::<Seq<char>>::empty());
        assert(names_set(ms.push(x)) =~= names_set(ms).insert(x@));
    } else {
        assert(ms.push(x).drop_first() =~= ms.drop_first().push(x));
        lemma_names_set_push(ms.drop_first(), x);
        assert(ms.push(x)[0] == ms[0]);
        assert(names_set(ms.push(x)) =~= names_set(ms.drop_first()).insert(x@).insert(ms[0]@));
        assert(names_set(ms) =~= names_set(ms.drop_first()).insert(ms[0]@));
        assert(names_set(ms.push(x)) =~= names_set(ms).insert(x@));
    }
}

pub proof fn lemma_names_set_prefix_snoc(ms: Seq<String>, k: int)
    requires
        0 <= k < ms.len(),
    ensures
        names_set(ms.subrange(0, k + 1)) =~= names_set(ms.subrange(0, k)).insert(ms[k]@),
{
    assert(ms.subrange(0, k + 1) =~= ms.subrange(0, k).push(ms[k]));
    lemma_names_set_push(ms.subrange(0, k), ms[k]);
}

pub proof fn lemma_names_set_empty(ms: Seq<String>)
    ensures
        (names_set(ms) =~= Set::<Seq<char>>::empty()) <==> ms.len() == 0,
{
    if ms.len() > 0 {
        lemma_names_set_contains(ms, ms[0]@);
        assert(names_set(ms).contains(ms[0]@));
    }
}

/// The name table a list of bindings denotes; a later binding of the same
/// name supersedes an earlier one.
pub open spec fn table_model(entries: Seq<(String, FunctionReference)>) -> Map<Seq<char>, usize>
    decreases entries,
{
    if entries.len() == 0 {
        Map::empty()
    } else {
        table_model(entries.drop_last()).insert(entries.last().0@, entries.last().1.index())
    }
}

/// Every key of the table comes from some binding.
pub proof fn lemma_table_model_keys(entries: Seq<(String, FunctionReference)>, k: Seq<char>)
    ensures
        table_model(entries).contains_key(k) ==> exists|i: int|
            0 <= i < entries.len() && (#[trigger] entries[i]).0@ == k,
    decreases entries,
{
    if entries.len() > 0 {
        lemma_table_model_keys(entries.drop_last(), k);
        if table_model(entries).contains_key(k) {
            if entries.last().0@ == k {
                assert(entries[entries.len() - 1].0@ == k);
            } else {
                assert(table_model(entries.drop_last()).contains_key(k));
                let i = choose|i: int|
                    0 <= i < entries.drop_last().len() && (#[trigger] entries.drop_last()[
                        i
                    ]).0@ == k;
                assert(entries[i].0@ == k);
            }
        }
    }
}

/// Every binding's key is in the table.
pub proof fn lemma_table_model_contains(entries: Seq<(String, FunctionReference)>, i: int)
    requires
        0 <= i < entries.len(),
    ensures
        table_model(entries).contains_key(entries[i].0@),
    decreases entries,
{
    if i < entries.len() - 1 {
        lemma_table_model_contains(entries.drop_last(), i);
        assert(entries.drop_last()[i] == entries[i]);
    }
}

/// An unresolved named function: a name and the body it will denote.
pub struct UnresolvedFunction {
    name: String,
    body: Vec<UnresolvedTerm>,
}

impl UnresolvedFunction {
    /// The name being defined.
    pub closed spec fn spec_name(self) -> Seq<char> {
        self.name@
    }

    /// The abstract content of the body.
    pub closed spec fn spec_body(self) -> Seq<UnresolvedTermModel> {
        unresolved_models(self.body@)
    }

    /// Bundles a name and a body for definition.
    pub fn new(name: String, body: Vec<UnresolvedTerm>) -> (r: UnresolvedFunction)
        ensures
            r.spec_name() == name@,
            r.spec_body() == unresolved_models(body@),
    {
        UnresolvedFunction { name, body }
    }

    /// The name being defined.
    pub fn name(&self) -> (r: &String)
        ensures
            r@ == self.spec_name(),
    {
        &self.name
    }

    /// The unresolved terms making up the body.
    pub fn body(&self) -> (r: &Vec<UnresolvedTerm>)
        ensures
            unresolved_models(r@) == self.spec_body(),
    {
        &self.body
    }
}

/// Tracks name-to-reference bindings over one function-storage arena.
pub struct Namespace {
    storage: FunctionStorage,
    names: Vec<(String, FunctionReference)>,
}

impl Namespace {
    /// The name table this namespace denotes.
    pub closed spec fn name_map(self) -> Map<Seq<char>, usize> {
        table_model(self.names@)
    }

    /// The arena contents, indexed by reference.
    pub closed spec fn storage_bodies(self) -> Seq<Seq<TermModel>> {
        self.storage.bodies()
    }

    /// The name bindings, oldest first.
    pub closed spec fn bindings(self) -> Seq<(String, FunctionReference)> {
        self.names@
    }

    /// The storage is internally consistent and every binding points into
    /// it.
    pub closed spec fn wf(self) -> bool {
        &&& self.storage.valid()
        &&& forall|i: int| 0 <= i < self.names@.len() ==> (#[trigger] self.names@[i]).1.index()
            < self.storage.body_count()
    }

    /// Creates an empty namespace with a fresh arena.
    pub fn new() -> (r: Namespace)
        ensures
            r.wf(),
            r.name_map() =~= Map::<Seq<char>, usize>::empty(),
            r.storage_bodies() =~= Seq::<Seq<TermModel>>::empty(),
    {
        Namespace { storage: FunctionStorage::new(), names: Vec::new() }
    }

    /// Creates a fresh virtual machine with an empty data stack, to
    /// evaluate this namespace's functions against.
    pub fn create_virtual_machine(&self) -> (r: crate::vm::VirtualMachine)
        ensures
            r.model() =~= Seq::<crate::value::AbstractValue>::empty(),
    {
        crate::vm::VirtualMachine::new()
    }

    /// A borrow of the arena, for evaluation and display.
    pub fn function_storage(&self) -> (r: &FunctionStorage)
        ensures
            r == self.spec_storage(),
            self.wf() ==> r.valid(),
            r.bodies() == self.storage_bodies(),
    {
        &self.storage
    }

    pub closed spec fn spec_storage(self) -> FunctionStorage {
        self.storage
    }

    /// Looks a name up in the table; a later binding supersedes an earlier
    /// one.
    pub fn get(&self, name: &String) -> (r: Option<FunctionReference>)
        ensures
            r is Some <==> self.name_map().contains_key(name@),
            r matches Some(fr) ==> self.name_map()[name@] == fr.index(),
            self.wf() ==> (r matches Some(fr) ==> fr.index() < self.storage_bodies().len()),
    {
        let r = Self::find_in(&self.names, name);
        proof {
            if self.wf() {
                match r {
                    Some(fr) => {
                        let i = choose|i: int|
                            0 <= i < self.names@.len() && (#[trigger] self.names@[i]).1 == fr;
                        assert(self.names@[i].1.index() < self.storage.body_count());
                        self.storage.lemma_bodies_len();
                    },
                    None => {},
                }
            }
        }
        r
    }

    /// The name currently bound to a reference, if any: the reverse lookup
    /// a renderer uses to print an application as its function's name.
    pub fn name_of(&self, reference: &FunctionReference) -> (r: Option<&String>)
        ensures
            r matches Some(s) ==> self.name_map().contains_key(s@) && self.name_map()[s@]
                == reference.index(),
            r is None ==> forall|k: Seq<char>| self.name_map().contains_key(k)
                ==> self.name_map()[k] != reference.index(),
    {
        let mut j: usize = 0;
        while j < self.names.len()
            invariant
                0 <= j <= self.names@.len(),
                forall|k: int| 0 <= k < j ==> self.name_map()[(#[trigger] self.names@[k]).0@]
                    != reference.index(),
            decreases self.names@.len() - j,
        {
            let entry_name = &self.names[j].0;
            proof {
                lemma_table_model_contains(self.names@, j as int);
            }
            match self.get(entry_name) {
                Some(bound) => {
                    if bound.function_index() == reference.function_index() {
                        return Some(entry_name);
                    }
                },
                None => {},
            }
            j += 1;
        }
        proof {
            assert forall|k: Seq<char>| self.name_map().contains_key(k) implies self.name_map()[k]
                != reference.index() by {
                lemma_table_model_keys(self.names@, k);
                let i = choose|i: int|
                    0 <= i < self.names@.len() && (#[trigger] self.names@[i]).0@ == k;
                assert(self.name_map()[self.names@[i].0@] != reference.index());
            }
        }
        None
    }

    /// Scans bindings from the newest to the oldest.
    fn find_in(entries: &Vec<(String, FunctionReference)>, name: &String) -> (r: Option<
        FunctionReference,
    >)
        ensures
            r is Some <==> table_model(entries@).contains_key(name@),
            r matches Some(fr) ==> table_model(entries@)[name@] == fr.index() && (exists|i: int|
                0 <= i < entries@.len() && (#[trigger] entries@[i]).1 == fr),
    {
        let ghost full = entries@;
        let mut j: usize = entries.len();
        proof {
            assert(full.subrange(0, full.len() as int) =~= full);
        }
        while j > 0
            invariant
                0 <= j <= entries@.len(),
                entries@ == full,
                table_model(full).contains_key(name@) == table_model(
                    full.subrange(0, j as int),
                ).contains_key(name@),
                table_model(full).contains_key(name@) ==> table_model(full)[name@] == table_model(
                    full.subrange(0, j as int),
                )[name@],
            decreases j,
        {
            j -= 1;
            proof {
                assert(full.subrange(0, j + 1).drop_last() =~= full.subrange(0, j as int));
                assert(full.subrange(0, j + 1).last() == full[j as int]);
            }
            let matches_here = entries[j].0 == *name;
            if matches_here {
                return Some(entries[j].1);
            }
        }
        proof {
            assert(full.subrange(0, 0) =~= Seq::<(String, FunctionReference)>::empty());
        }
        None
    }

    /// Whether `name` is already recorded in a list of missing names.
    fn contains_name(ms: &Vec<String>, name: &String) -> (r: bool)
        ensures
            r == names_set(ms@).contains(name@),
    {
        proof {
            lemma_names_set_contains(ms@, name@);
        }
        let mut i: usize = 0;
        while i < ms.len()
            invariant
                0 <= i <= ms@.len(),
                forall|k: int| 0 <= k < i ==> ms@[k]@ != name@,
                names_set(ms@).contains(name@) == (exists|k: int|
                    0 <= k < ms@.len() && ms@[k]@ == name@),
            decreases ms@.len() - i,
        {
            if ms[i] == *name {
                return true;
            }
            i += 1;
        }
        false
    }

    /// Resolves a body left to right, reserving and filling arena entries
    /// for nested lambdas, and collecting every unresolvable name. The name
    /// table is never touched; bodies stored earlier are never changed.
    #[verifier::loop_isolation(false)]
    #[verifier::rlimit(60)]
    fn resolve_terms(
        &mut self,
        defining: &String,
        defining_reference: FunctionReference,
        body: &Vec<UnresolvedTerm>,
    ) -> (r: (Vec<Term>, Vec<String>))
        requires
            old(self).wf(),
            defining_reference.index() < old(self).spec_storage().body_count(),
            valid_unresolved_terms(
                unresolved_models(body@),
                old(self).spec_storage().body_count(),
            ),
        ensures
            final(self).wf(),
            final(self).bindings() == old(self).bindings(),
            old(self).spec_storage().body_count() <= final(self).spec_storage().body_count(),
            forall|i: int| 0 <= i < old(self).storage_bodies().len() ==> final(self).storage_bodies()[i] == old(self).storage_bodies()[i],
            distinct_names(r.1@),
            names_set(r.1@) =~= missing_of_body(
                old(self).name_map(),
                defining@,
                unresolved_models(body@),
            ),
            valid_term_models(term_models(r.0@), final(self).spec_storage().body_count()),
            missing_of_body(old(self).name_map(), defining@, unresolved_models(body@))
                =~= Set::<Seq<char>>::empty() ==> final(self).storage_bodies() =~= resolve_model(
                old(self).storage_bodies(),
                old(self).name_map(),
                defining@,
                defining_reference.index(),
                unresolved_models(body@),
            ).0,
            missing_of_body(old(self).name_map(), defining@, unresolved_models(body@))
                =~= Set::<Seq<char>>::empty() ==> term_models(r.0@) =~= resolve_model(
                old(self).storage_bodies(),
                old(self).name_map(),
                defining@,
                defining_reference.index(),
                unresolved_models(body@),
            ).1,
        decreases body@,
    {
        let ghost table = old(self).name_map();
        let ghost models = unresolved_models(body@);
        let ghost entry_bodies = old(self).storage_bodies();
        let ghost dref = defining_reference.index();
        proof {
            self.storage.lemma_bodies_len();
            lemma_unresolved_models_len(body@);
        }
        let mut resolved: Vec<Term> = Vec::new();
        let mut missing: Vec<String> = Vec::new();
        let mut j: usize = 0;
        proof {
            assert(models.subrange(0, 0) =~= Seq::<UnresolvedTermModel>::empty());
            assert(term_models(resolved@) =~= Seq::<TermModel>::empty());
            assert(names_set(missing@) =~= Set::<Seq<char>>::empty());
        }
        while j < body.len()
            invariant
                0 <= j <= body@.len(),
                self.wf(),
                self.names@ == old(self).names@,
                old(self).spec_storage().body_count() <= self.spec_storage().body_count(),
                forall|i: int| 0 <= i < entry_bodies.len() ==> self.storage.bodies()[i]
                    == entry_bodies[i],
                distinct_names(missing@),
                names_set(missing@) =~= missing_of_body(
                    table,
                    defining@,
                    models.subrange(0, j as int),
                ),
                valid_term_models(term_models(resolved@), self.spec_storage().body_count()),
                missing_of_body(table, defining@, models.subrange(0, j as int))
                    =~= Set::<Seq<char>>::empty() ==> (self.storage.bodies() =~= resolve_model(
                    entry_bodies,
                    table,
                    defining@,
                    dref,
                    models.subrange(0, j as int),
                ).0 && term_models(resolved@) =~= resolve_model(
                    entry_bodies,
                    table,
                    defining@,
                    dref,
                    models.subrange(0, j as int),
                ).1 && resolved@.len() == j),
            decreases body@.len() - j,
        {
            let ghost prefix_missing = missing_of_body(table, defining@, models.subrange(0, j as int));
            let ghost prefix_state = resolve_model(
                entry_bodies,
                table,
                defining@,
                dref,
                models.subrange(0, j as int),
            );
            proof {
                lemma_unresolved_models_index(body@, j as int);
                lemma_missing_of_body_snoc(table, defining@, models, j as int);
                lemma_resolve_model_snoc(entry_bodies, table, defining@, dref, models, j as int);
                lemma_valid_unresolved_terms_index(
                    models,
                    old(self).spec_storage().body_count(),
                    j as int,
                );
                if missing_of_body(table, defining@, models.subrange(0, j + 1))
                    =~= Set::<Seq<char>>::empty() {
                    assert(prefix_missing =~= Set::<Seq<char>>::empty());
                    assert(missing_of_term(table, defining@, models[j as int])
                        =~= Set::<Seq<char>>::empty());
                }
            }
            let term = &body[j];
            match term {
                UnresolvedTerm::Resolved(inner_term) => {
                    let copy = inner_term.duplicate();
                    proof {
                        lemma_valid_term_model_grow(
                            term_model(copy),
                            old(self).spec_storage().body_count(),
                            self.spec_storage().body_count(),
                        );
                        lemma_term_models_push(resolved@, copy);
                        lemma_term_models_len(resolved@);
                        crate::term::lemma_valid_term_models_push(
                            term_models(resolved@),
                            term_model(copy),
                            self.spec_storage().body_count(),
                        );
                    }
                    resolved.push(copy);
                },
                UnresolvedTerm::UnresolvedApplication(name) => {
                    if *name == *defining {
                        proof {
                            lemma_term_models_push(
                                resolved@,
                                Term::Application(defining_reference),
                            );
                            lemma_term_models_len(resolved@);
                            crate::term::lemma_valid_term_models_push(
                                term_models(resolved@),
                                term_model(Term::Application(defining_reference)),
                                self.spec_storage().body_count(),
                            );
                        }
                        resolved.push(Term::Application(defining_reference));
                    } else {
                        let found = self.get(name);
                        match found {
                            Some(fr) => {
                                proof {
                                    self.storage.lemma_bodies_len();
                                    lemma_term_models_push(resolved@, Term::Application(fr));
                                    lemma_term_models_len(resolved@);
                                    crate::term::lemma_valid_term_models_push(
                                        term_models(resolved@),
                                        term_model(Term::Application(fr)),
                                        self.spec_storage().body_count(),
                                    );
                                }
                                resolved.push(Term::Application(fr));
                            },
                            None => {
                                proof {
                                    assert(missing_of_body(
                                        table,
                                        defining@,
                                        models.subrange(0, j + 1),
                                    ).contains(name@));
                                }
                                if !Self::contains_name(&missing, name) {
                                    let recorded = name.clone();
                                    proof {
                                        lemma_names_set_push(missing@, recorded);
                                        lemma_names_set_contains(missing@, name@);
                                    }
                                    missing.push(recorded);
                                }
                            },
                        }
                    }
                },
                UnresolvedTerm::UnresolvedLambda(inner) => {
                    proof {
                        assert(decreases_to!(body@ => inner@));
                        lemma_unresolved_models_len(inner@);
                    }
                    let ghost count_before = self.spec_storage().body_count();
                    let ghost bodies_before = self.storage.bodies();
                    proof {
                        self.storage.lemma_bodies_len();
                    }
                    let lref = self.storage.reserve(inner.len());
                    proof {
                        self.storage.lemma_bodies_len();
                        lemma_valid_unresolved_terms_grow(
                            unresolved_models(inner@),
                            old(self).spec_storage().body_count(),
                            self.spec_storage().body_count(),
                        );
                    }
                    let ghost bodies_reserved = self.storage.bodies();
                    let sub = self.resolve_terms(defining, defining_reference, inner);
                    let (sub_terms, sub_missing) = sub;
                    let ghost inner_missing = missing_of_body(
                        table,
                        defining@,
                        unresolved_models(inner@),
                    );
                    proof {
                        lemma_names_set_empty(sub_missing@);
                    }
                    if sub_missing.len() == 0 {
                        proof {
                            lemma_names_set_empty(sub_missing@);
                            assert(inner_missing =~= Set::<Seq<char>>::empty());
                            lemma_resolve_model_len(
                                bodies_reserved,
                                table,
                                defining@,
                                dref,
                                unresolved_models(inner@),
                            );
                            lemma_term_models_len(sub_terms@);
                            assert(self.storage.bodies()[lref.index() as int]
                                == bodies_reserved[lref.index() as int]);
                            assert(self.storage.bodies() =~= resolve_model(
                                bodies_reserved,
                                table,
                                defining@,
                                dref,
                                unresolved_models(inner@),
                            ).0);
                            assert(term_models(sub_terms@) =~= resolve_model(
                                bodies_reserved,
                                table,
                                defining@,
                                dref,
                                unresolved_models(inner@),
                            ).1);
                        }
                        let ghost pre_store = self.storage;
                        self.storage.store(lref, &sub_terms);
                        proof {
                            self.storage.lemma_bodies_len();
                            pre_store.lemma_bodies_len();
                            assert forall|i: int| 0 <= i < self.storage.bodies().len() implies
                                valid_term_models(
                                #[trigger] self.storage.bodies()[i],
                                self.storage.body_count(),
                            ) by {
                                if i == lref.index() {
                                    assert(self.storage.bodies()[i] == term_models(sub_terms@));
                                } else {
                                    assert(self.storage.bodies()[i] == pre_store.bodies()[i]);
                                    assert(valid_term_models(
                                        pre_store.bodies()[i],
                                        pre_store.body_count(),
                                    ));
                                }
                            }
                            assert(self.storage.valid());
                            assert(self.storage.bodies() =~= pre_store.bodies().update(
                                lref.index() as int,
                                term_models(sub_terms@),
                            ));
                            assert(pre_store.bodies() =~= resolve_model(
                                bodies_reserved,
                                table,
                                defining@,
                                dref,
                                unresolved_models(inner@),
                            ).0);
                            assert(pre_store.bodies() == resolve_model(
                                bodies_reserved,
                                table,
                                defining@,
                                dref,
                                unresolved_models(inner@),
                            ).0);
                            assert(self.storage.bodies() == resolve_model(
                                bodies_reserved,
                                table,
                                defining@,
                                dref,
                                unresolved_models(inner@),
                            ).0.update(lref.index() as int, term_models(sub_terms@)));
                        }
                    }
                    let lambda_value = Value::Lambda(LambdaReference::from_function(lref));
                    let data_term = Term::Data(lambda_value);
                    proof {
                        assert(crate::value::valid_references(
                            seq![lref.index()],
                            self.spec_storage().body_count(),
                        )) by {
                            assert(seq![lref.index()].drop_first()
                                =~= Seq::<usize>::empty());
                            assert(seq![lref.index()][0] == lref.index());
                            assert(lref.index() < self.spec_storage().body_count());
                            assert(crate::value::valid_references(
                                Seq::<usize>::empty(),
                                self.spec_storage().body_count(),
                            ));
                        }
                        assert(valid_term_model(
                            term_model(data_term),
                            self.spec_storage().body_count(),
                        ));
                        lemma_term_models_push(resolved@, data_term);
                        lemma_term_models_len(resolved@);
                        lemma_valid_term_models_grow(
                            term_models(resolved@),
                            count_before,
                            self.spec_storage().body_count(),
                        );
                        crate::term::lemma_valid_term_models_push(
                            term_models(resolved@),
                            term_model(data_term),
                            self.spec_storage().body_count(),
                        );
                    }
                    resolved.push(data_term);
                    let ghost missing_before_merge = names_set(missing@);
                    let mut k: usize = 0;
                    proof {
                        assert(sub_missing@.subrange(0, 0) =~= Seq::<String>::empty());
                        assert(names_set(Seq::<String>::empty()) =~= Set::<Seq<char>>::empty());
                    }
                    while k < sub_missing.len()
                        invariant
                            0 <= k <= sub_missing@.len(),
                            distinct_names(missing@),
                            names_set(missing@) =~= missing_before_merge.union(
                                names_set(sub_missing@.subrange(0, k as int)),
                            ),
                        decreases sub_missing@.len() - k,
                    {
                        proof {
                            lemma_names_set_prefix_snoc(sub_missing@, k as int);
                        }
                        let candidate = &sub_missing[k];
                        if !Self::contains_name(&missing, candidate) {
                            let recorded = candidate.clone();
                            proof {
                                lemma_names_set_push(missing@, recorded);
                                lemma_names_set_contains(missing@, candidate@);
                            }
                            missing.push(recorded);
                        }
                        k += 1;
                    }
                    proof {
                        assert(sub_missing@.subrange(0, sub_missing@.len() as int)
                            =~= sub_missing@);
                        assert(names_set(missing@) =~= missing_before_merge.union(inner_missing));
                        self.storage.lemma_bodies_len();
                        assert forall|i: int| 0 <= i < entry_bodies.len() implies
                            self.storage.bodies()[i] == entry_bodies[i] by {
                            assert(self.storage_bodies() == self.storage.bodies());
                            assert(self.storage_bodies()[i] == bodies_reserved[i]);
                            assert(bodies_reserved[i] == bodies_before[i]);
                        }
                        if missing_of_body(table, defining@, models.subrange(0, j + 1))
                            =~= Set::<Seq<char>>::empty() {
                            assert(models[j as int] == UnresolvedTermModel::Lambda {
                                body: unresolved_models(inner@),
                            });
                            assert(inner_missing =~= Set::<Seq<char>>::empty());
                            let step = resolve_first(
                                prefix_state.0,
                                table,
                                defining@,
                                dref,
                                models[j as int],
                            );
                            assert(bodies_before =~= prefix_state.0);
                            assert(lref.index() == prefix_state.0.len());
                            assert(bodies_reserved =~= prefix_state.0.push(
                                Seq::new(
                                    unresolved_models(inner@).len(),
                                    |i: int| TermModel::Recursion,
                                ),
                            ));
                            assert(term_models(sub_terms@) =~= resolve_model(
                                bodies_reserved,
                                table,
                                defining@,
                                dref,
                                unresolved_models(inner@),
                            ).1);
                            assert(self.storage.bodies() =~= resolve_model(
                                bodies_reserved,
                                table,
                                defining@,
                                dref,
                                unresolved_models(inner@),
                            ).0.update(lref.index() as int, term_models(sub_terms@)));
                            assert(self.storage.bodies() =~= step.0);
                            assert(term_model(data_term) == step.1);
                            assert(term_models(resolved@) =~= prefix_state.1.push(step.1));
                        }
                    }
                },
            }
            j += 1;
            proof {
                assert(models.subrange(0, j as int) =~= models.subrange(0, j - 1).push(
                    models[j - 1],
                ));
            }
        }
        proof {
            assert(models.subrange(0, body@.len() as int) =~= models);
        }
        (resolved, missing)
    }

    /// Resolves a named function body and, on success, stores it and binds
    /// the name to its reference.
    ///
    /// The definition is atomic and its error is complete: when any name
    /// (at any nesting depth) cannot be resolved, every such name is
    /// reported at once, the name table is left exactly as it was, and no
    /// previously stored body changes either way. A use of the name being
    /// defined, at any depth, resolves to the new function's own reference,
    /// which makes recursive definitions work without a prior binding.
    pub fn define(&mut self, function: &UnresolvedFunction) -> (r: Result<
        FunctionReference,
        Vec<String>,
    >)
        requires
            old(self).wf(),
            valid_unresolved_terms(function.spec_body(), old(self).storage_bodies().len()),
        ensures
            final(self).wf(),
            old(self).storage_bodies().len() <= final(self).storage_bodies().len(),
            forall|i: int| 0 <= i < old(self).storage_bodies().len() ==> final(self).storage_bodies()[i] == old(self).storage_bodies()[i],
            (r is Ok) <==> missing_of_body(
                old(self).name_map(),
                function.spec_name(),
                function.spec_body(),
            ) =~= Set::<Seq<char>>::empty(),
            r matches Ok(fr) ==> {
                &&& fr.index() == old(self).storage_bodies().len()
                &&& final(self).name_map() =~= old(self).name_map().insert(
                    function.spec_name(),
                    fr.index(),
                )
                &&& final(self).storage_bodies() =~= resolve_model(
                    old(self).storage_bodies().push(
                        Seq::new(function.spec_body().len(), |i: int| TermModel::Recursion),
                    ),
                    old(self).name_map(),
                    function.spec_name(),
                    fr.index(),
                    function.spec_body(),
                ).0.update(
                    fr.index() as int,
                    resolve_model(
                        old(self).storage_bodies().push(
                            Seq::new(function.spec_body().len(), |i: int| TermModel::Recursion),
                        ),
                        old(self).name_map(),
                        function.spec_name(),
                        fr.index(),
                        function.spec_body(),
                    ).1,
                )
            },
            r matches Err(m) ==> {
                &&& distinct_names(m@)
                &&& names_set(m@) =~= missing_of_body(
                    old(self).name_map(),
                    function.spec_name(),
                    function.spec_body(),
                )
                &&& final(self).bindings() == old(self).bindings()
                &&& final(self).name_map() == old(self).name_map()
            },
    {
        proof {
            self.storage.lemma_bodies_len();
            lemma_unresolved_models_len(function.body@);
        }
        let length = function.body.len();
        let reserved = self.storage.reserve(length);
        proof {
            self.storage.lemma_bodies_len();
            lemma_valid_unresolved_terms_grow(
                function.spec_body(),
                old(self).storage_bodies().len() as nat,
                self.spec_storage().body_count(),
            );
        }
        let ghost bodies_reserved = self.storage.bodies();
        let (resolved, missing) = self.resolve_terms(&function.name, reserved, &function.body);
        proof {
            lemma_names_set_empty(missing@);
            self.storage.lemma_bodies_len();
            assert forall|i: int| 0 <= i < old(self).storage_bodies().len() implies
                self.storage.bodies()[i] == old(self).storage_bodies()[i] by {
                assert(self.storage_bodies() == self.storage.bodies());
                assert(self.storage_bodies()[i] == bodies_reserved[i]);
            }
        }
        if missing.len() == 0 {
            proof {
                lemma_resolve_model_len(
                    bodies_reserved,
                    old(self).name_map(),
                    function.spec_name(),
                    reserved.index(),
                    function.spec_body(),
                );
                lemma_term_models_len(resolved@);
                assert(self.storage.bodies()[reserved.index() as int]
                    == bodies_reserved[reserved.index() as int]);
            }
            let ghost pre_store = self.storage;
            self.storage.store(reserved, &resolved);
            proof {
                self.storage.lemma_bodies_len();
                pre_store.lemma_bodies_len();
                assert forall|i: int| 0 <= i < self.storage.bodies().len() implies
                    valid_term_models(
                    #[trigger] self.storage.bodies()[i],
                    self.storage.body_count(),
                ) by {
                    if i == reserved.index() {
                        assert(self.storage.bodies()[i] == term_models(resolved@));
                    } else {
                        assert(self.storage.bodies()[i] == pre_store.bodies()[i]);
                        assert(valid_term_models(pre_store.bodies()[i], pre_store.body_count()));
                    }
                }
                assert(self.storage.valid());
                assert forall|i: int| 0 <= i < old(self).storage_bodies().len() implies
                    self.storage.bodies()[i] == old(self).storage_bodies()[i] by {
                    assert(self.storage.bodies()[i] == pre_store.bodies()[i]);
                }
            }
            let binding_name = function.name().clone();
            let ghost names_before = self.names@;
            self.names.push((binding_name, reserved));
            proof {
                assert(self.names@.drop_last() =~= names_before);
            }
            Ok(reserved)
        } else {
            Err(missing)
        }
    }

    /// Resolves a body without binding any name: the anonymous path an
    /// interactive evaluator uses for free term sequences. On success the
    /// body is stored and its fresh reference returned; the name table is
    /// never touched either way. The empty name stands for the definition
    /// itself, so no real identifier can resolve to it.
    pub fn resolve_anonymous(&mut self, body: &Vec<UnresolvedTerm>) -> (r: Result<
        FunctionReference,
        Vec<String>,
    >)
        requires
            old(self).wf(),
            valid_unresolved_terms(unresolved_models(body@), old(self).storage_bodies().len()),
        ensures
            final(self).wf(),
            final(self).bindings() == old(self).bindings(),
            final(self).name_map() == old(self).name_map(),
            old(self).storage_bodies().len() <= final(self).storage_bodies().len(),
            forall|i: int| 0 <= i < old(self).storage_bodies().len() ==> final(self).storage_bodies()[i] == old(self).storage_bodies()[i],
            (r is Ok) <==> missing_of_body(
                old(self).name_map(),
                Seq::empty(),
                unresolved_models(body@),
            ) =~= Set::<Seq<char>>::empty(),
            r matches Ok(fr) ==> {
                &&& fr.index() == old(self).storage_bodies().len()
                &&& final(self).storage_bodies() =~= resolve_model(
                    old(self).storage_bodies().push(
                        Seq::new(body@.len(), |i: int| TermModel::Recursion),
                    ),
                    old(self).name_map(),
                    Seq::empty(),
                    fr.index(),
                    unresolved_models(body@),
                ).0.update(
                    fr.index() as int,
                    resolve_model(
                        old(self).storage_bodies().push(
                            Seq::new(body@.len(), |i: int| TermModel::Recursion),
                        ),
                        old(self).name_map(),
                        Seq::empty(),
                        fr.index(),
                        unresolved_models(body@),
                    ).1,
                )
            },
            r matches Err(m) ==> {
                &&& distinct_names(m@)
                &&& names_set(m@) =~= missing_of_body(
                    old(self).name_map(),
                    Seq::empty(),
                    unresolved_models(body@),
                )
            },
    {
        proof {
            self.storage.lemma_bodies_len();
            lemma_unresolved_models_len(body@);
        }
        let anonymous = String::new();
        let length = body.len();
        let reserved = self.storage.reserve(length);
        proof {
            self.storage.lemma_bodies_len();
            lemma_valid_unresolved_terms_grow(
                unresolved_models(body@),
                old(self).storage_bodies().len() as nat,
                self.spec_storage().body_count(),
            );
        }
        let ghost bodies_reserved = self.storage.bodies();
        let (resolved, missing) = self.resolve_terms(&anonymous, reserved, body);
        proof {
            lemma_names_set_empty(missing@);
            self.storage.lemma_bodies_len();
            assert forall|i: int| 0 <= i < old(self).storage_bodies().len() implies
                self.storage.bodies()[i] == old(self).storage_bodies()[i] by {
                assert(self.storage_bodies() == self.storage.bodies());
                assert(self.storage_bodies()[i] == bodies_reserved[i]);
            }
        }
        if missing.len() == 0 {
            proof {
                lemma_resolve_model_len(
                    bodies_reserved,
                    old(self).name_map(),
                    Seq::empty(),
                    reserved.index(),
                    unresolved_models(body@),
                );
                lemma_term_models_len(resolved@);
                assert(self.storage.bodies()[reserved.index() as int]
                    == bodies_reserved[reserved.index() as int]);
            }
            let ghost pre_store = self.storage;
            self.storage.store(reserved, &resolved);
            proof {
                self.storage.lemma_bodies_len();
                pre_store.lemma_bodies_len();
                assert forall|i: int| 0 <= i < self.storage.bodies().len() implies
                    valid_term_models(
                    #[trigger] self.storage.bodies()[i],
                    self.storage.body_count(),
                ) by {
                    if i == reserved.index() {
                        assert(self.storage.bodies()[i] == term_models(resolved@));
                    } else {
                        assert(self.storage.bodies()[i] == pre_store.bodies()[i]);
                        assert(valid_term_models(pre_store.bodies()[i], pre_store.body_count()));
                    }
                }
                assert(self.storage.valid());
                assert forall|i: int| 0 <= i < old(self).storage_bodies().len() implies
                    self.storage.bodies()[i] == old(self).storage_bodies()[i] by {
                    assert(self.storage.bodies()[i] == pre_store.bodies()[i]);
                }
            }
            Ok(reserved)
        } else {
            Err(missing)
        }
    }
}

} // verus!
