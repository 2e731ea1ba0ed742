//! The function-storage arena.
//!
//! Resolved function bodies live in one flat term buffer; a table of ranges
//! maps each [`FunctionReference`] to a contiguous slice of that buffer.
//! Ranges are reserved before their terms are known (so self references can
//! be encoded with the reference that will name them), then written exactly
//! once resolution has succeeded. The arena only grows: a reference, once
//! handed out, stays valid and its stored body is never changed by later
//! definitions.

use vstd::prelude::*;
use crate::term::{
    lemma_term_models_index, lemma_term_models_len, term_model, term_models, valid_term_models,
    Term, TermModel,
};

verus! {

/// An opaque handle to one stored function body.
#[derive(Clone, Copy, Debug, PartialEq, Eq, Structural)]
pub struct FunctionReference {
    index: usize,
}

impl FunctionReference {
    /// The arena index this reference names.
    pub closed spec fn index(self) -> usize {
        self.index
    }

    /// Creates a reference from a raw arena index.
    pub fn from_function_index(index: usize) -> (r: FunctionReference)
        ensures
            r.index() == index,
    {
        FunctionReference { index }
    }

    /// The raw arena index of this reference.
    pub fn function_index(&self) -> (r: usize)
        ensures
            r == self.index(),
    {
        self.index
    }
}

/// A lambda value's reference: an ordered list of arena indices whose bodies
/// are executed in sequence, as if concatenated.
pub struct LambdaReference(Vec<usize>);

impl LambdaReference {
    /// The ordered arena indices this lambda concatenates.
    pub closed spec fn model(self) -> Seq<usize> {
        self.0@
    }

    /// Wraps a single function reference as a lambda.
    pub fn from_function(function_reference: FunctionReference) -> (r: LambdaReference)
        ensures
            r.model() == seq![function_reference.index()],
    {
        let mut indices: Vec<usize> = Vec::new();
        indices.push(function_reference.function_index());
        proof {
            assert(indices@ =~= seq![function_reference.index()]);
        }
        LambdaReference(indices)
    }

    /// Creates a lambda from an ordered list of arena indices.
    pub fn from_function_indices(indices: Vec<usize>) -> (r: LambdaReference)
        ensures
            r.model() == indices@,
    {
        LambdaReference(indices)
    }

    /// Composes this lambda with another: the result runs this lambda's
    /// bodies first, then the other's.
    pub fn compose(self, other: LambdaReference) -> (r: LambdaReference)
        ensures
            r.model() == self.model() + other.model(),
    {
        let LambdaReference(mut indices) = self;
        let LambdaReference(mut other_indices) = other;
        indices.append(&mut other_indices);
        LambdaReference(indices)
    }

    /// The arena indices of this lambda, in execution order.
    pub fn indices(&self) -> (r: &Vec<usize>)
        ensures
            r@ == self.model(),
    {
        &self.0
    }

    /// Copies this lambda reference.
    pub fn duplicate(&self) -> (r: LambdaReference)
        ensures
            r.model() == self.model(),
    {
        let mut indices: Vec<usize> = Vec::new();
        let mut j: usize = 0;
        while j < self.0.len()
            invariant
                0 <= j <= self.0.len(),
                indices@ =~= self.0@.subrange(0, j as int),
            decreases self.0.len() - j,
        {
            indices.push(self.0[j]);
            j += 1;
        }
        proof {
            assert(indices@ =~= self.0@);
        }
        LambdaReference(indices)
    }

    /// Whether two lambdas are the same composition of arena indices.
    pub fn same_references(&self, other: &LambdaReference) -> (r: bool)
        ensures
            r == (self.model() == other.model()),
    {
        if self.0.len() != other.0.len() {
            return false;
        }
        let mut j: usize = 0;
        while j < self.0.len()
            invariant
                0 <= j <= self.0.len(),
                self.0@.len() == other.0@.len(),
                forall|k: int| 0 <= k < j ==> self.0@[k] == other.0@[k],
            decreases self.0.len() - j,
        {
            if self.0[j] != other.0[j] {
                return false;
            }
            j += 1;
        }
        proof {
            assert(self.0@ =~= other.0@);
        }
        true
    }

    /// Whether every index of this lambda points below `n`.
    #[verifier::loop_isolation(false)]
    pub fn references_below(&self, n: usize) -> (r: bool)
        ensures
            r == (forall|i: int| 0 <= i < self.model().len() ==> self.model()[i] < n),
            r == crate::value::valid_abstract_value(
                crate::value::AbstractValue::Lambda { refs: self.model() },
                n as nat,
            ),
    {
        proof {
            crate::value::lemma_lambda_validity(self.model(), n as nat);
        }
        let mut j: usize = 0;
        while j < self.0.len()
            invariant
                0 <= j <= self.0.len(),
                forall|k: int| 0 <= k < j ==> self.0@[k] < n,
            decreases self.0.len() - j,
        {
            if self.0[j] >= n {
                proof {
                    assert(self.model()[j as int] >= n);
                }
                return false;
            }
            j += 1;
        }
        true
    }
}

/// One contiguous range of the term buffer.
#[derive(Clone, Copy, Debug, PartialEq, Eq, Structural)]
pub struct TermSequenceReference {
    start: usize,
    end: usize,
}

/// The arena of resolved function bodies.
pub struct FunctionStorage {
    terms: Vec<Term>,
    ranges: Vec<TermSequenceReference>,
}

impl FunctionStorage {
    /// The ranges are in bounds and pairwise disjoint, in order.
    pub closed spec fn wf(self) -> bool {
        &&& forall|i: int| 0 <= i < self.ranges@.len() ==> (#[trigger] self.ranges@[i]).start
            <= self.ranges@[i].end <= self.terms@.len()
        &&& forall|i: int, j: int| 0 <= i < j < self.ranges@.len() ==> (
        #[trigger] self.ranges@[i]).end <= (#[trigger] self.ranges@[j]).start
    }

    /// How many bodies have been reserved or stored.
    pub closed spec fn body_count(self) -> nat {
        self.ranges@.len()
    }

    /// The abstract content of body `i`.
    pub closed spec fn body_model(self, i: int) -> Seq<TermModel> {
        term_models(self.terms@.subrange(self.ranges@[i].start as int, self.ranges@[i].end as int))
    }

    /// The abstract contents of all bodies, indexed by reference.
    pub closed spec fn bodies(self) -> Seq<Seq<TermModel>> {
        Seq::new(self.ranges@.len(), |i: int| self.body_model(i))
    }

    /// Every stored term's references point into the arena itself.
    pub open spec fn valid(self) -> bool {
        &&& self.wf()
        &&& forall|i: int| 0 <= i < self.bodies().len() ==> valid_term_models(
            #[trigger] self.bodies()[i],
            self.body_count(),
        )
    }

    /// The bodies are indexed exactly by the references handed out so far.
    pub proof fn lemma_bodies_len(self)
        ensures
            self.bodies().len() == self.body_count(),
    {
    }

    /// Creates an empty arena.
    pub fn new() -> (r: FunctionStorage)
        ensures
            r.wf(),
            r.valid(),
            r.bodies() =~= Seq::<Seq<TermModel>>::empty(),
    {
        FunctionStorage { terms: Vec::new(), ranges: Vec::new() }
    }

    /// The number of bodies reserved so far.
    pub fn count(&self) -> (r: usize)
        ensures
            r == self.body_count(),
    {
        self.ranges.len()
    }

    /// Reserves a fixed-size range at the end of the term buffer and returns
    /// the reference that names it. Until `store` is called for that
    /// reference the range holds inert placeholder terms.
    pub fn reserve(&mut self, length: usize) -> (r: FunctionReference)
        requires
            old(self).wf(),
        ensures
            final(self).wf(),
            r.index() == old(self).body_count(),
            final(self).body_count() == old(self).body_count() + 1,
            final(self).bodies() =~= old(self).bodies().push(
                Seq::new(length as nat, |i: int| TermModel::Recursion),
            ),
            old(self).valid() ==> final(self).valid(),
    {
        let start = self.terms.len();
        let ghost old_terms = self.terms@;
        let mut k: usize = 0;
        while k < length
            invariant
                0 <= k <= length,
                self.terms@.len() == old_terms.len() + k,
                self.terms@.subrange(0, old_terms.len() as int) =~= old_terms,
                forall|i: int| old_terms.len() <= i < self.terms@.len() ==> self.terms@[i]
                    is Recursion,
                self.ranges == old(self).ranges,
                start == old_terms.len(),
            decreases length - k,
        {
            self.terms.push(Term::Recursion);
            k += 1;
        }
        let end = self.terms.len();
        let index = self.ranges.len();
        self.ranges.push(TermSequenceReference { start, end });
        proof {
            assert forall|i: int| 0 <= i < old(self).ranges@.len() implies self.body_model(i)
                =~= old(self).body_model(i) by {
                let rg = old(self).ranges@[i];
                assert(self.terms@.subrange(rg.start as int, rg.end as int) =~= old(
                    self,
                ).terms@.subrange(rg.start as int, rg.end as int));
            }
            let fresh = self.terms@.subrange(start as int, end as int);
            assert(forall|i: int| 0 <= i < fresh.len() ==> #[trigger] fresh[i] is Recursion);
            lemma_models_of_recursion_run(fresh);
            assert(self.body_model(index as int) =~= Seq::new(
                length as nat,
                |i: int| TermModel::Recursion,
            ));
            assert(self.bodies() =~= old(self).bodies().push(
                Seq::new(length as nat, |i: int| TermModel::Recursion),
            ));
            if old(self).valid() {
                assert forall|i: int| 0 <= i < self.bodies().len() implies valid_term_models(
                    #[trigger] self.bodies()[i],
                    self.body_count(),
                ) by {
                    if i < old(self).bodies().len() {
                        assert(valid_term_models(old(self).bodies()[i], old(self).body_count()));
                        lemma_valid_term_models_grow(
                            self.bodies()[i],
                            old(self).body_count(),
                            self.body_count(),
                        );
                    }
                }
            }
        }
        FunctionReference { index }
    }

    /// Writes a resolved body into its previously reserved range. The body
    /// must have exactly the reserved length; no other body changes.
    pub fn store(&mut self, reference: FunctionReference, body: &Vec<Term>)
        requires
            old(self).wf(),
            reference.index() < old(self).body_count(),
            body@.len() == old(self).bodies()[reference.index() as int].len(),
        ensures
            final(self).wf(),
            final(self).body_count() == old(self).body_count(),
            final(self).bodies() =~= old(self).bodies().update(
                reference.index() as int,
                term_models(body@),
            ),
    {
        let rg = self.ranges[reference.index];
        let ghost old_terms = self.terms@;
        proof {
            lemma_term_models_len(
                old(self).terms@.subrange(rg.start as int, rg.end as int),
            );
        }
        let mut k: usize = 0;
        while k < body.len()
            invariant
                0 <= k <= body.len(),
                rg.start + body.len() == rg.end,
                rg.end <= self.terms@.len(),
                self.terms@.len() == old_terms.len(),
                self.ranges == old(self).ranges,
                rg == old(self).ranges@[reference.index() as int],
                forall|i: int| 0 <= i < self.terms@.len() && !(rg.start <= i < rg.start + k)
                    ==> self.terms@[i] == old_terms[i],
                forall|i: int| 0 <= i < k ==> term_model(#[trigger] self.terms@[rg.start + i])
                    == term_model(body@[i]),
            decreases body.len() - k,
        {
            let t = body[k].duplicate();
            self.terms.set(rg.start + k, t);
            k += 1;
        }
        proof {
            assert forall|i: int| 0 <= i < self.ranges@.len() && i != reference.index() implies
                self.body_model(i) =~= old(self).body_model(i) by {
                let other = self.ranges@[i];
                assert(self.terms@.subrange(other.start as int, other.end as int) =~= old_terms
                    .subrange(other.start as int, other.end as int)) by {
                    if i < reference.index() {
                        assert(other.end <= rg.start);
                    } else {
                        assert(rg.end <= other.start);
                    }
                }
            }
            let written = self.terms@.subrange(rg.start as int, rg.end as int);
            assert(written.len() == body@.len());
            assert forall|i: int| 0 <= i < written.len() implies term_model(#[trigger] written[i])
                == term_model(body@[i]) by {
                assert(written[i] == self.terms@[rg.start + i]);
            }
            lemma_term_models_elementwise(written, body@);
            assert(self.body_model(reference.index() as int) =~= term_models(body@));
            assert(self.bodies() =~= old(self).bodies().update(
                reference.index() as int,
                term_models(body@),
            ));
        }
    }

    /// The stored terms of one reference, as a fresh copy.
    pub fn get(&self, reference: FunctionReference) -> (r: Vec<Term>)
        requires
            self.wf(),
            reference.index() < self.body_count(),
        ensures
            term_models(r@) =~= self.bodies()[reference.index() as int],
    {
        let rg = self.ranges[reference.index];
        let mut out: Vec<Term> = Vec::new();
        let mut k: usize = rg.start;
        while k < rg.end
            invariant
                rg.start <= k <= rg.end,
                rg.end <= self.terms@.len(),
                out@.len() == k - rg.start,
                forall|i: int| 0 <= i < out@.len() ==> term_model(#[trigger] out@[i])
                    == term_model(self.terms@[rg.start + i]),
            decreases rg.end - k,
        {
            let t = self.terms[k].duplicate();
            out.push(t);
            k += 1;
        }
        proof {
            let stored = self.terms@.subrange(rg.start as int, rg.end as int);
            lemma_term_models_elementwise(out@, stored);
        }
        out
    }

    /// The logical concatenation of the bodies a composed lambda names,
    /// in order, as a fresh copy.
    pub fn get_composed(&self, lambda: &LambdaReference) -> (r: Vec<Term>)
        requires
            self.wf(),
            forall|i: int| 0 <= i < lambda.model().len() ==> lambda.model()[i]
                < self.body_count(),
        ensures
            term_models(r@) =~= concatenated_bodies(self.bodies(), lambda.model()),
    {
        let indices = lambda.indices();
        let mut out: Vec<Term> = Vec::new();
        let mut j: usize = 0;
        while j < indices.len()
            invariant
                0 <= j <= indices.len(),
                indices@ == lambda.model(),
                self.wf(),
                forall|i: int| 0 <= i < lambda.model().len() ==> lambda.model()[i]
                    < self.body_count(),
                term_models(out@) =~= concatenated_bodies(
                    self.bodies(),
                    lambda.model().subrange(0, j as int),
                ),
            decreases indices.len() - j,
        {
            let reference = FunctionReference { index: indices[j] };
            let mut piece = self.get(reference);
            let ghost out_before = out@;
            let ghost piece_seq = piece@;
            out.append(&mut piece);
            proof {
                assert(out@ =~= out_before + piece_seq);
                lemma_term_models_concat(out_before, piece_seq);
                lemma_concatenated_bodies_step(
                    self.bodies(),
                    lambda.model(),
                    j as int,
                );
            }
            j += 1;
        }
        proof {
            assert(lambda.model().subrange(0, lambda.model().len() as int) =~= lambda.model());
        }
        out
    }

    /// The length of one stored body.
    pub fn body_length(&self, function: usize) -> (r: usize)
        requires
            self.wf(),
            function < self.body_count(),
        ensures
            r == self.bodies()[function as int].len(),
    {
        let rg = self.ranges[function];
        proof {
            lemma_term_models_len(self.terms@.subrange(rg.start as int, rg.end as int));
        }
        rg.end - rg.start
    }

    /// A borrow of the term at one position of one stored body.
    pub fn term_at(&self, function: usize, cursor: usize) -> (r: &Term)
        requires
            self.wf(),
            function < self.body_count(),
            cursor < self.bodies()[function as int].len(),
        ensures
            term_model(*r) == self.bodies()[function as int][cursor as int],
    {
        let rg = self.ranges[function];
        proof {
            lemma_term_models_len(self.terms@.subrange(rg.start as int, rg.end as int));
            lemma_term_models_index(
                self.terms@.subrange(rg.start as int, rg.end as int),
                cursor as int,
            );
        }
        &self.terms[rg.start + cursor]
    }
}

/// The concatenation of the bodies named by `refs`, in order.
pub open spec fn concatenated_bodies(bodies: Seq<Seq<TermModel>>, refs: Seq<usize>) -> Seq<
    TermModel,
>
    decreases refs,
{
    if refs.len() == 0 {
        Seq::empty()
    } else {
        bodies[refs[0] as int] + concatenated_bodies(bodies, refs.drop_first())
    }
}

/// Appending one more reference extends the concatenation by that body.
pub proof fn lemma_concatenated_bodies_step(bodies: Seq<Seq<TermModel>>, refs: Seq<usize>, j: int)
    requires
        0 <= j < refs.len(),
    ensures
        concatenated_bodies(bodies, refs.subrange(0, j + 1)) =~= concatenated_bodies(
            bodies,
            refs.subrange(0, j),
        ) + bodies[refs[j] as int],
    decreases j,
{
    if j == 0 {
        assert(refs.subrange(0, 1).drop_first() =~= Seq::<usize>::empty());
        assert(refs.subrange(0, 0) =~= Seq::<usize>::empty());
    } else {
        let a = refs.subrange(0, j + 1);
        let b = refs.subrange(0, j);
        assert(a.drop_first() =~= refs.drop_first().subrange(0, j));
        assert(b.drop_first() =~= refs.drop_first().subrange(0, j - 1));
        lemma_concatenated_bodies_step(bodies, refs.drop_first(), j - 1);
        assert(a[0] == refs[0]);
        assert(b[0] == refs[0]);
    }
}

/// Two term sequences with elementwise-equal models have equal models.
pub proof fn lemma_term_models_elementwise(a: Seq<Term>, b: Seq<Term>)
    requires
        a.len() == b.len(),
        forall|i: int| 0 <= i < a.len() ==> term_model(#[trigger] a[i]) == term_model(b[i]),
    ensures
        term_models(a) =~= term_models(b),
{
    lemma_term_models_len(a);
    lemma_term_models_len(b);
    assert forall|i: int| 0 <= i < a.len() implies term_models(a)[i] == term_models(b)[i] by {
        lemma_term_models_index(a, i);
        lemma_term_models_index(b, i);
    }
}

/// Term models distribute over sequence concatenation.
pub proof fn lemma_term_models_concat(a: Seq<Term>, b: Seq<Term>)
    ensures
        term_models(a + b) =~= term_models(a) + term_models(b),
{
    lemma_term_models_len(a);
    lemma_term_models_len(b);
    lemma_term_models_len(a + b);
    assert forall|i: int| 0 <= i < a.len() + b.len() implies term_models(a + b)[i] == (
    term_models(a) + term_models(b))[i] by {
        lemma_term_models_index(a + b, i);
        if i < a.len() {
            lemma_term_models_index(a, i);
            assert((a + b)[i] == a[i]);
        } else {
            lemma_term_models_index(b, i - a.len());
            assert((a + b)[i] == b[i - a.len()]);
        }
    }
}

/// A run of placeholder terms models as a run of `Recursion`.
proof fn lemma_models_of_recursion_run(ts: Seq<Term>)
    requires
        forall|i: int| 0 <= i < ts.len() ==> #[trigger] ts[i] is Recursion,
    ensures
        term_models(ts) =~= Seq::new(ts.len(), |i: int| TermModel::Recursion),
{
    lemma_term_models_len(ts);
    assert forall|i: int| 0 <= i < ts.len() implies term_models(ts)[i] == TermModel::Recursion by {
        lemma_term_models_index(ts, i);
    }
}

/// Term validity is monotone in the arena size.
pub proof fn lemma_valid_term_models_grow(ts: Seq<TermModel>, n: nat, m: nat)
    requires
        valid_term_models(ts, n),
        n <= m,
    ensures
        valid_term_models(ts, m),
{
    assert forall|i: int| 0 <= i < ts.len() implies crate::term::valid_term_model(
        #[trigger] ts[i],
        m,
    ) by {
        assert(crate::term::valid_term_model(ts[i], n));
        lemma_valid_term_model_grow(ts[i], n, m);
    }
}

/// One term's validity is monotone in the arena size.
pub proof fn lemma_valid_term_model_grow(t: TermModel, n: nat, m: nat)
    requires
        crate::term::valid_term_model(t, n),
        n <= m,
    ensures
        crate::term::valid_term_model(t, m),
{
    match t {
        TermModel::Data { value } => {
            lemma_valid_abstract_value_grow(value, n, m);
        },
        _ => {},
    }
}

/// A value's validity is monotone in the arena size.
pub proof fn lemma_valid_abstract_value_grow(av: crate::value::AbstractValue, n: nat, m: nat)
    requires
        crate::value::valid_abstract_value(av, n),
        n <= m,
    ensures
        crate::value::valid_abstract_value(av, m),
    decreases av,
{
    match av {
        crate::value::AbstractValue::Lambda { refs } => {
            lemma_valid_references_grow(refs, n, m);
        },
        crate::value::AbstractValue::List { items } => {
            lemma_valid_abstract_values_grow(items, n, m);
        },
        _ => {},
    }
}

pub proof fn lemma_valid_references_grow(refs: Seq<usize>, n: nat, m: nat)
    requires
        crate::value::valid_references(refs, n),
        n <= m,
    ensures
        crate::value::valid_references(refs, m),
    decreases refs,
{
    if refs.len() > 0 {
        lemma_valid_references_grow(refs.drop_first(), n, m);
    }
}

pub proof fn lemma_valid_abstract_values_grow(
    items: Seq<crate::value::AbstractValue>,
    n: nat,
    m: nat,
)
    requires
        crate::value::valid_abstract_values(items, n),
        n <= m,
    ensures
        crate::value::valid_abstract_values(items, m),
    decreases items,
{
    if items.len() > 0 {
        lemma_valid_abstract_value_grow(items[0], n, m);
        lemma_valid_abstract_values_grow(items.drop_first(), n, m);
    }
}

} // verus!
