//! Resolved instructions.
//!
//! A [`Term`] is one instruction of a resolved function body: invoke a stored
//! function, run a combinator, push a literal value, or re-invoke the
//! function currently executing.

use vstd::prelude::*;
use crate::combinator::Combinator;
use crate::storage::FunctionReference;
use crate::value::{
    valid_abstract_value, value_model, AbstractValue, Value,
};

verus! {

/// A resolved instruction as specifications see it.
#[verifier::ext_equal]
pub enum TermModel {
    Application { index: usize },
    Combinator { combinator: Combinator },
    Data { value: AbstractValue },
    Recursion,
}

/// A resolved instruction; immutable once stored.
pub enum Term {
    /// Invoke the stored function a reference points to.
    Application(FunctionReference),
    /// Perform a built-in stack operation.
    Combinator(Combinator),
    /// Push a literal value.
    Data(Value),
    /// Invoke the function currently being executed.
    Recursion,
}

/// The abstract content of a term.
pub open spec fn term_model(t: Term) -> TermModel {
    match t {
        Term::Application(r) => TermModel::Application { index: r.index() },
        Term::Combinator(c) => TermModel::Combinator { combinator: c },
        Term::Data(v) => TermModel::Data { value: value_model(v) },
        Term::Recursion => TermModel::Recursion,
    }
}

/// The abstract contents of a sequence of terms, in order.
pub open spec fn term_models(ts: Seq<Term>) -> Seq<TermModel>
    decreases ts,
{
    if ts.len() == 0 {
        Seq::empty()
    } else {
        seq![term_model(ts[0])] + term_models(ts.drop_first())
    }
}

/// A term is valid for an arena of `n` stored bodies when every reference in
/// it points below `n`.
pub open spec fn valid_term_model(t: TermModel, n: nat) -> bool {
    match t {
        TermModel::Application { index } => index < n,
        TermModel::Combinator { .. } => true,
        TermModel::Data { value } => valid_abstract_value(value, n),
        TermModel::Recursion => true,
    }
}

pub open spec fn valid_term_models(ts: Seq<TermModel>, n: nat) -> bool {
    forall|i: int| 0 <= i < ts.len() ==> valid_term_model(#[trigger] ts[i], n)
}

pub proof fn lemma_term_models_len(ts: Seq<Term>)
    ensures
        term_models(ts).len() == ts.len(),
    decreases ts,
{
    if ts.len() > 0 {
        lemma_term_models_len(ts.drop_first());
    }
}

pub proof fn lemma_term_models_index(ts: Seq<Term>, i: int)
    requires
        0 <= i < ts.len(),
    ensures
        term_models(ts).len() == ts.len(),
        term_models(ts)[i] == term_model(ts[i]),
    decreases ts,
{
    lemma_term_models_len(ts);
    if i > 0 {
        lemma_term_models_index(ts.drop_first(), i - 1);
    }
}

pub proof fn lemma_term_models_push(ts: Seq<Term>, t: Term)
    ensures
        term_models(ts.push(t)) =~= term_models(ts).push(term_model(t)),
{
    lemma_term_models_len(ts);
    lemma_term_models_len(ts.push(t));
    lemma_term_models_index(ts.push(t), ts.len() as int);
    assert forall|i: int| 0 <= i < ts.len() implies term_models(ts.push(t))[i] == term_models(
        ts,
    ).push(term_model(t))[i] by {
        lemma_term_models_index(ts.push(t), i);
        lemma_term_models_index(ts, i);
        assert(ts.push(t)[i] == ts[i]);
    }
}

/// Validity survives appending one more valid term.
pub proof fn lemma_valid_term_models_push(ts: Seq<TermModel>, t: TermModel, n: nat)
    requires
        valid_term_models(ts, n),
        valid_term_model(t, n),
    ensures
        valid_term_models(ts.push(t), n),
{
    assert forall|i: int| 0 <= i < ts.push(t).len() implies valid_term_model(
        #[trigger] ts.push(t)[i],
        n,
    ) by {
        if i < ts.len() {
            assert(ts.push(t)[i] == ts[i]);
        } else {
            assert(ts.push(t)[i] == t);
        }
    }
}

impl Term {
    /// A deep copy: the copy has the same abstract content.
    pub fn duplicate(&self) -> (r: Term)
        ensures
            term_model(r) == term_model(*self),
    {
        match self {
            Term::Application(fr) => Term::Application(*fr),
            Term::Combinator(c) => Term::Combinator(*c),
            Term::Data(v) => Term::Data(v.duplicate()),
            Term::Recursion => Term::Recursion,
        }
    }
}

} // verus!
