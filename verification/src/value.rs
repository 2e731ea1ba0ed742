//! Runtime values and their mathematical model.
//!
//! Contracts throughout the crate speak about [`AbstractValue`], the
//! mathematical content of a runtime [`Value`]: booleans, unbounded integers,
//! lambda reference lists and nested lists, with the machine representation
//! (big-integer internals, vector buffers) abstracted away.

use vstd::prelude::*;
use crate::integer::Integer;
use crate::storage::{FunctionReference, LambdaReference};

verus! {

/// A value as specifications see it.
#[verifier::ext_equal]
pub enum AbstractValue {
    Boolean { b: bool },
    Int { i: int },
    /// An anonymous function: the arena indices of the bodies it concatenates.
    Lambda { refs: Seq<usize> },
    List { items: Seq<AbstractValue> },
}

/// A runtime value held on the data stack.
pub enum Value {
    /// A true or false value.
    Boolean(bool),
    /// An unbounded signed integer.
    Integer(Integer),
    /// An anonymous function value.
    Lambda(LambdaReference),
    /// A list of values.
    List(Vec<Value>),
}

/// The abstract content of a runtime value.
pub open spec fn value_model(v: Value) -> AbstractValue
    decreases v,
{
    match v {
        Value::Boolean(b) => AbstractValue::Boolean { b },
        Value::Integer(i) => AbstractValue::Int { i: i.value() },
        Value::Lambda(l) => AbstractValue::Lambda { refs: l.model() },
        Value::List(items) => AbstractValue::List { items: value_models(items@) },
    }
}

/// The abstract contents of a sequence of runtime values, in order.
pub open spec fn value_models(items: Seq<Value>) -> Seq<AbstractValue>
    decreases items,
{
    if items.len() == 0 {
        Seq::empty()
    } else {
        seq![value_model(items[0])] + value_models(items.drop_first())
    }
}

/// An abstract value is valid for an arena of `n` stored bodies when every
/// lambda reference in it points below `n`.
pub open spec fn valid_abstract_value(av: AbstractValue, n: nat) -> bool
    decreases av,
{
    match av {
        AbstractValue::Boolean { .. } => true,
        AbstractValue::Int { .. } => true,
        AbstractValue::Lambda { refs } => valid_references(refs, n),
        AbstractValue::List { items } => valid_abstract_values(items, n),
    }
}

/// Every reference in the list points below `n`.
pub open spec fn valid_references(refs: Seq<usize>, n: nat) -> bool
    decreases refs,
{
    if refs.len() == 0 {
        true
    } else {
        refs[0] < n && valid_references(refs.drop_first(), n)
    }
}

/// Validity of a reference list is elementwise.
pub proof fn lemma_valid_references_index(refs: Seq<usize>, n: nat)
    ensures
        valid_references(refs, n) <==> (forall|i: int| 0 <= i < refs.len() ==> refs[i] < n),
    decreases refs,
{
    if refs.len() > 0 {
        let rest = refs.drop_first();
        lemma_valid_references_index(rest, n);
        if valid_references(refs, n) {
            assert forall|i: int| 0 <= i < refs.len() implies refs[i] < n by {
                if i > 0 {
                    assert(rest[i - 1] == refs[i]);
                }
            }
        }
        if forall|i: int| 0 <= i < refs.len() ==> refs[i] < n {
            assert forall|i: int| 0 <= i < rest.len() implies rest[i] < n by {
                assert(rest[i] == refs[i + 1]);
            }
            assert(refs[0] < n);
        }
    }
}

pub open spec fn valid_abstract_values(items: Seq<AbstractValue>, n: nat) -> bool
    decreases items,
{
    if items.len() == 0 {
        true
    } else {
        valid_abstract_value(items[0], n) && valid_abstract_values(items.drop_first(), n)
    }
}

/// `value_models` distributes over indexing.
pub proof fn lemma_value_models_index(items: Seq<Value>, i: int)
    requires
        0 <= i < items.len(),
    ensures
        value_models(items).len() == items.len(),
        value_models(items)[i] == value_model(items[i]),
    decreases items,
{
    lemma_value_models_len(items);
    if i > 0 {
        lemma_value_models_index(items.drop_first(), i - 1);
    }
}

pub proof fn lemma_value_models_len(items: Seq<Value>)
    ensures
        value_models(items).len() == items.len(),
    decreases items,
{
    if items.len() > 0 {
        lemma_value_models_len(items.drop_first());
    }
}

/// `value_models` distributes over pushing one value at the end.
pub proof fn lemma_value_models_push(items: Seq<Value>, v: Value)
    ensures
        value_models(items.push(v)) =~= value_models(items).push(value_model(v)),
    decreases items,
{
    lemma_value_models_len(items);
    lemma_value_models_len(items.push(v));
    lemma_value_models_index(items.push(v), items.len() as int);
    assert forall|i: int| 0 <= i < items.len() implies value_models(items.push(v))[i]
        == value_models(items).push(value_model(v))[i] by {
        lemma_value_models_index(items.push(v), i);
        lemma_value_models_index(items, i);
        assert(items.push(v)[i] == items[i]);
    }
}

/// A lambda's validity is exactly the bound on each of its references.
pub proof fn lemma_lambda_validity(refs: Seq<usize>, n: nat)
    ensures
        valid_abstract_value(AbstractValue::Lambda { refs }, n) <==> (forall|i: int|
            0 <= i < refs.len() ==> refs[i] < n),
{
    lemma_valid_references_index(refs, n);
}

/// `value_models` distributes over sequence concatenation.
pub proof fn lemma_value_models_concat(a: Seq<Value>, b: Seq<Value>)
    ensures
        value_models(a + b) =~= value_models(a) + value_models(b),
{
    lemma_value_models_len(a);
    lemma_value_models_len(b);
    lemma_value_models_len(a + b);
    assert forall|i: int| 0 <= i < a.len() + b.len() implies value_models(a + b)[i] == (
    value_models(a) + value_models(b))[i] by {
        lemma_value_models_index(a + b, i);
        if i < a.len() {
            lemma_value_models_index(a, i);
            assert((a + b)[i] == a[i]);
        } else {
            lemma_value_models_index(b, i - a.len());
            assert((a + b)[i] == b[i - a.len()]);
        }
    }
}

/// `value_models` distributes over dropping the first element.
pub proof fn lemma_value_models_drop_first(items: Seq<Value>)
    requires
        items.len() > 0,
    ensures
        value_models(items.drop_first()) =~= value_models(items).drop_first(),
{
    lemma_value_models_len(items);
    lemma_value_models_len(items.drop_first());
    assert forall|i: int| 0 <= i < items.drop_first().len() implies value_models(
        items.drop_first(),
    )[i] == value_models(items).drop_first()[i] by {
        lemma_value_models_index(items.drop_first(), i);
        lemma_value_models_index(items, i + 1);
        assert(items.drop_first()[i] == items[i + 1]);
    }
}

/// Validity of a sequence of abstract values is elementwise.
pub proof fn lemma_valid_abstract_values_index(items: Seq<AbstractValue>, n: nat)
    ensures
        valid_abstract_values(items, n) <==> (forall|i: int|
            0 <= i < items.len() ==> valid_abstract_value(#[trigger] items[i], n)),
    decreases items,
{
    if items.len() > 0 {
        let rest = items.drop_first();
        lemma_valid_abstract_values_index(rest, n);
        if valid_abstract_values(items, n) {
            assert forall|i: int| 0 <= i < items.len() implies valid_abstract_value(
                #[trigger] items[i],
                n,
            ) by {
                if i > 0 {
                    assert(rest[i - 1] == items[i]);
                    assert(valid_abstract_value(rest[i - 1], n));
                }
            }
        }
        if forall|i: int| 0 <= i < items.len() ==> valid_abstract_value(#[trigger] items[i], n) {
            assert forall|i: int| 0 <= i < rest.len() implies valid_abstract_value(
                #[trigger] rest[i],
                n,
            ) by {
                assert(rest[i] == items[i + 1]);
                assert(valid_abstract_value(items[i + 1], n));
            }
            assert(valid_abstract_value(items[0], n));
        }
    }
}

pub proof fn lemma_valid_abstract_values_push(items: Seq<AbstractValue>, v: AbstractValue, n: nat)
    requires
        valid_abstract_values(items, n),
        valid_abstract_value(v, n),
    ensures
        valid_abstract_values(items.push(v), n),
{
    lemma_valid_abstract_values_index(items, n);
    lemma_valid_abstract_values_index(items.push(v), n);
    assert forall|i: int| 0 <= i < items.push(v).len() implies valid_abstract_value(
        #[trigger] items.push(v)[i],
        n,
    ) by {
        if i < items.len() {
            assert(items.push(v)[i] == items[i]);
        } else {
            assert(items.push(v)[i] == v);
        }
    }
}

/// Validity restricted to any subsequence selected by `subrange`-like
/// reindexing: stated for the two forms the machine uses.
pub proof fn lemma_valid_abstract_values_drop_last(items: Seq<AbstractValue>, n: nat)
    requires
        valid_abstract_values(items, n),
        items.len() > 0,
    ensures
        valid_abstract_values(items.drop_last(), n),
{
    lemma_valid_abstract_values_index(items, n);
    lemma_valid_abstract_values_index(items.drop_last(), n);
    assert forall|i: int| 0 <= i < items.drop_last().len() implies valid_abstract_value(
        #[trigger] items.drop_last()[i],
        n,
    ) by {
        assert(items.drop_last()[i] == items[i]);
    }
}

pub proof fn lemma_valid_abstract_values_drop_first(items: Seq<AbstractValue>, n: nat)
    requires
        valid_abstract_values(items, n),
        items.len() > 0,
    ensures
        valid_abstract_values(items.drop_first(), n),
{
    lemma_valid_abstract_values_index(items, n);
    lemma_valid_abstract_values_index(items.drop_first(), n);
    assert forall|i: int| 0 <= i < items.drop_first().len() implies valid_abstract_value(
        #[trigger] items.drop_first()[i],
        n,
    ) by {
        assert(items.drop_first()[i] == items[i + 1]);
    }
}

pub proof fn lemma_valid_abstract_values_update(
    items: Seq<AbstractValue>,
    k: int,
    v: AbstractValue,
    n: nat,
)
    requires
        valid_abstract_values(items, n),
        valid_abstract_value(v, n),
        0 <= k < items.len(),
    ensures
        valid_abstract_values(items.update(k, v), n),
{
    lemma_valid_abstract_values_index(items, n);
    lemma_valid_abstract_values_index(items.update(k, v), n);
    assert forall|i: int| 0 <= i < items.update(k, v).len() implies valid_abstract_value(
        #[trigger] items.update(k, v)[i],
        n,
    ) by {
        if i == k {
            assert(items.update(k, v)[i] == v);
        } else {
            assert(items.update(k, v)[i] == items[i]);
        }
    }
}

pub proof fn lemma_valid_abstract_values_concat(
    a: Seq<AbstractValue>,
    b: Seq<AbstractValue>,
    n: nat,
)
    requires
        valid_abstract_values(a, n),
        valid_abstract_values(b, n),
    ensures
        valid_abstract_values(a + b, n),
{
    lemma_valid_abstract_values_index(a, n);
    lemma_valid_abstract_values_index(b, n);
    lemma_valid_abstract_values_index(a + b, n);
    assert forall|i: int| 0 <= i < (a + b).len() implies valid_abstract_value(
        #[trigger] (a + b)[i],
        n,
    ) by {
        if i < a.len() {
            assert((a + b)[i] == a[i]);
        } else {
            assert((a + b)[i] == b[i - a.len()]);
        }
    }
}

pub proof fn lemma_valid_references_concat(a: Seq<usize>, b: Seq<usize>, n: nat)
    requires
        valid_references(a, n),
        valid_references(b, n),
    ensures
        valid_references(a + b, n),
{
    lemma_valid_references_index(a, n);
    lemma_valid_references_index(b, n);
    lemma_valid_references_index(a + b, n);
    assert forall|i: int| 0 <= i < (a + b).len() implies (a + b)[i] < n by {
        if i < a.len() {
            assert((a + b)[i] == a[i]);
        } else {
            assert((a + b)[i] == b[i - a.len()]);
        }
    }
}

impl Value {
    /// Structural equality of two values, decided on their abstract content.
    ///
    /// Values of different kinds are simply unequal; integers compare by
    /// value, lambdas by their reference lists, lists elementwise.
    pub fn equals(&self, other: &Value) -> (r: bool)
        ensures
            r == (value_model(*self) == value_model(*other)),
        decreases *self,
    {
        match (self, other) {
            (Value::Boolean(a), Value::Boolean(b)) => a == b,
            (Value::Integer(a), Value::Integer(b)) => a.equals(b),
            (Value::Lambda(a), Value::Lambda(b)) => {
                let r = a.same_references(b);
                proof {
                    if a.model() == b.model() {
                        assert(value_model(*self) =~= value_model(*other));
                    }
                }
                r
            },
            (Value::List(a), Value::List(b)) => {
                if a.len() != b.len() {
                    proof {
                        lemma_value_models_len(a@);
                        lemma_value_models_len(b@);
                    }
                    return false;
                }
                let ghost ma = value_models(a@);
                let ghost mb = value_models(b@);
                let mut j: usize = 0;
                while j < a.len()
                    invariant
                        0 <= j <= a.len(),
                        *self == Value::List(*a),
                        *other == Value::List(*b),
                        a@.len() == b@.len(),
                        ma == value_models(a@),
                        mb == value_models(b@),
                        forall|k: int| 0 <= k < j ==> ma[k] == mb[k],
                    decreases a.len() - j,
                {
                    proof {
                        lemma_value_models_index(a@, j as int);
                        lemma_value_models_index(b@, j as int);
                        assert(decreases_to!(*self => a@[j as int]));
                    }
                    if !a[j].equals(&b[j]) {
                        proof {
                            if ma == mb {
                                assert(ma[j as int] == mb[j as int]);
                            }
                        }
                        return false;
                    }
                    j += 1;
                }
                proof {
                    lemma_value_models_len(a@);
                    lemma_value_models_len(b@);
                    assert(ma =~= mb);
                    assert(value_model(*self) =~= value_model(*other));
                }
                true
            },
            _ => false,
        }
    }

    /// A deep copy: the copy has the same abstract content.
    #[verifier::loop_isolation(false)]
    pub fn duplicate(&self) -> (r: Value)
        ensures
            value_model(r) == value_model(*self),
        decreases *self,
    {
        match self {
            Value::Boolean(b) => Value::Boolean(*b),
            Value::Integer(i) => Value::Integer(i.duplicate()),
            Value::Lambda(l) => {
                let r = Value::Lambda(l.duplicate());
                proof {
                    assert(value_model(r) =~= value_model(*self));
                }
                r
            },
            Value::List(items) => {
                let mut copied: Vec<Value> = Vec::new();
                let mut j: usize = 0;
                while j < items.len()
                    invariant
                        0 <= j <= items.len(),
                        *self == Value::List(*items),
                        copied@.len() == j,
                        forall|k: int| 0 <= k < j ==> value_model(copied@[k]) == value_model(
                            items@[k],
                        ),
                    decreases items.len() - j,
                {
                    proof {
                        assert(decreases_to!(*self => items@[j as int]));
                    }
                    let c = items[j].duplicate();
                    copied.push(c);
                    j += 1;
                }
                proof {
                    lemma_value_models_len(copied@);
                    lemma_value_models_len(items@);
                    assert forall|k: int| 0 <= k < items@.len() implies value_models(copied@)[k]
                        == value_models(items@)[k] by {
                        lemma_value_models_index(copied@, k);
                        lemma_value_models_index(items@, k);
                    }
                    assert(value_models(copied@) =~= value_models(items@));
                    assert(value_model(Value::List(copied)) =~= value_model(*self));
                }
                Value::List(copied)
            },
        }
    }

    /// Whether every lambda reference inside this value points below `n`,
    /// the number of bodies an arena holds.
    #[verifier::loop_isolation(false)]
    pub fn references_below(&self, n: usize) -> (r: bool)
        ensures
            r == valid_abstract_value(value_model(*self), n as nat),
        decreases *self,
    {
        match self {
            Value::Boolean(_) => true,
            Value::Integer(_) => true,
            Value::Lambda(l) => {
                let r = l.references_below(n);
                proof {
                    assert(value_model(*self) == AbstractValue::Lambda { refs: l.model() });
                }
                r
            },
            Value::List(items) => {
                let ghost ms = value_models(items@);
                let mut j: usize = 0;
                let mut ok = true;
                while j < items.len()
                    invariant
                        0 <= j <= items.len(),
                        *self == Value::List(*items),
                        ms == value_models(items@),
                        ok == (forall|k: int| 0 <= k < j ==> valid_abstract_value(
                            #[trigger] ms[k],
                            n as nat,
                        )),
                    decreases items.len() - j,
                {
                    proof {
                        lemma_value_models_index(items@, j as int);
                        assert(decreases_to!(*self => items@[j as int]));
                    }
                    let this_ok = items[j].references_below(n);
                    ok = ok && this_ok;
                    j += 1;
                }
                proof {
                    lemma_value_models_len(items@);
                    lemma_valid_abstract_values_index(ms, n as nat);
                    assert(value_model(*self) == AbstractValue::List { items: ms });
                    assert(ok == valid_abstract_values(ms, n as nat));
                }
                ok
            },
        }
    }
}

} // verus!
