//! The runtime data stack.
//!
//! A growable last-in-first-out stack of [`Value`]s with indexed access from
//! the top (index `0` is the top element). Its model is the sequence of
//! abstract values from bottom to top.

use vstd::prelude::*;
use crate::value::{
    lemma_valid_abstract_values_index, lemma_value_models_index, lemma_value_models_len,
    lemma_value_models_push, valid_abstract_value, valid_abstract_values, value_model,
    value_models, AbstractValue, Value,
};

verus! {

/// The runtime value stack. The bottom of the stack is the start of the
/// model sequence; the top is its end.
pub struct DataStack {
    items: Vec<Value>,
}

impl DataStack {
    /// The abstract contents of this stack, bottom first.
    pub closed spec fn model(self) -> Seq<AbstractValue> {
        value_models(self.items@)
    }

    /// Every lambda reference held anywhere in the stack points below `n`.
    pub open spec fn valid(self, n: nat) -> bool {
        valid_abstract_values(self.model(), n)
    }

    /// Creates an empty stack.
    pub fn new() -> (r: DataStack)
        ensures
            r.model() =~= Seq::<AbstractValue>::empty(),
    {
        DataStack { items: Vec::new() }
    }

    /// The number of values on the stack.
    pub fn size(&self) -> (r: usize)
        ensures
            r == self.model().len(),
    {
        proof {
            lemma_value_models_len(self.items@);
        }
        self.items.len()
    }

    /// Pushes a value onto the top of the stack.
    pub fn push(&mut self, value: Value)
        ensures
            final(self).model() =~= old(self).model().push(value_model(value)),
    {
        proof {
            lemma_value_models_push(self.items@, value);
        }
        self.items.push(value);
    }

    /// Pops the top value, or yields nothing on an empty stack.
    pub fn pop(&mut self) -> (r: Option<Value>)
        ensures
            old(self).model().len() == 0 ==> r is None && final(self).model() == old(
                self,
            ).model(),
            old(self).model().len() > 0 ==> (r matches Some(v) && value_model(v) == old(
                self,
            ).model().last() && final(self).model() =~= old(self).model().drop_last()),
    {
        proof {
            lemma_value_models_len(self.items@);
            if self.items@.len() > 0 {
                lemma_value_models_index(self.items@, self.items@.len() - 1);
            }
        }
        let ghost before = self.items@;
        let r = self.items.pop();
        proof {
            if before.len() > 0 {
                lemma_value_models_len(self.items@);
                assert forall|i: int| 0 <= i < self.items@.len() implies value_models(
                    self.items@,
                )[i] == old(self).model().drop_last()[i] by {
                    lemma_value_models_index(self.items@, i);
                    lemma_value_models_index(before, i);
                    assert(self.items@[i] == before[i]);
                }
            }
        }
        r
    }

    /// A borrow of the value `index` places below the top (`0` is the top),
    /// or nothing when the stack holds no such place.
    pub fn get_from_top(&self, index: usize) -> (r: Option<&Value>)
        ensures
            index < self.model().len() ==> (r matches Some(v) && value_model(*v) == self.model()[
                self.model().len() - 1 - index
            ]),
            index >= self.model().len() ==> r is None,
    {
        proof {
            lemma_value_models_len(self.items@);
        }
        if index < self.items.len() {
            let position = self.items.len() - 1 - index;
            proof {
                lemma_value_models_index(self.items@, position as int);
            }
            Some(&self.items[position])
        } else {
            None
        }
    }

    /// Replaces the value `index` places below the top (`0` is the top).
    pub fn set_from_top(&mut self, index: usize, value: Value)
        requires
            index < old(self).model().len(),
        ensures
            final(self).model() =~= old(self).model().update(
                old(self).model().len() - 1 - index,
                value_model(value),
            ),
    {
        proof {
            lemma_value_models_len(self.items@);
        }
        let position = self.items.len() - 1 - index;
        let ghost before = self.items@;
        self.items.set(position, value);
        proof {
            lemma_value_models_len(self.items@);
            assert forall|i: int| 0 <= i < self.items@.len() implies value_models(self.items@)[i]
                == old(self).model().update(
                old(self).model().len() - 1 - index,
                value_model(value),
            )[i] by {
                lemma_value_models_index(self.items@, i);
                if i != position {
                    lemma_value_models_index(before, i);
                    assert(self.items@[i] == before[i]);
                }
            }
        }
    }

    /// A borrow of the values on the stack, bottom first.
    pub fn items(&self) -> (r: &Vec<Value>)
        ensures
            value_models(r@) == self.model(),
    {
        &self.items
    }

    /// Whether every lambda reference in the stack points below `n`, the
    /// number of bodies an arena holds.
    pub fn references_below(&self, n: usize) -> (r: bool)
        ensures
            r == self.valid(n as nat),
    {
        let ghost ms = self.model();
        let mut j: usize = 0;
        let mut ok = true;
        while j < self.items.len()
            invariant
                0 <= j <= self.items@.len(),
                ms == value_models(self.items@),
                ok == (forall|k: int| 0 <= k < j ==> valid_abstract_value(
                    #[trigger] ms[k],
                    n as nat,
                )),
            decreases self.items@.len() - j,
        {
            proof {
                lemma_value_models_index(self.items@, j as int);
            }
            let this_ok = self.items[j].references_below(n);
            ok = ok && this_ok;
            j += 1;
        }
        proof {
            lemma_value_models_len(self.items@);
            lemma_valid_abstract_values_index(ms, n as nat);
        }
        ok
    }
}

} // verus!
