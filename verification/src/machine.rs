//! The evaluation machine: its mathematical model.
//!
//! Evaluation is specified as a small-step state machine over the abstract
//! contents of the arena, an explicit control stack of frames, and the data
//! stack. [`machine_step`] gives the meaning of one step; [`machine_run`]
//! iterates it. The executable evaluator in [`crate::vm`] is proved to
//! implement exactly this machine: each of its steps performs one
//! [`machine_step`], and its result is the machine's outcome.

use vstd::prelude::*;
use crate::combinator::{Combinator, EvaluationError};
use crate::integer::{trunc_div, trunc_rem};
use crate::term::TermModel;
use crate::value::{
    valid_abstract_value, valid_abstract_values, valid_references, AbstractValue,
};

verus! {

/// One activation record of the control stack, abstractly.
pub enum FrameModel {
    /// Executing stored body `function`, next term at `cursor`.
    Body { function: usize, cursor: nat },
    /// Restores a saved value on top of the data stack (used by `under`).
    Restore { value: AbstractValue },
    /// Applies a lambda to each element of a list, collecting the results.
    MapFrame {
        lambda: Seq<usize>,
        remaining: Seq<AbstractValue>,
        done: Seq<AbstractValue>,
        awaiting: bool,
    },
    /// Applies a predicate lambda to each element, keeping those accepted.
    FilterFrame {
        lambda: Seq<usize>,
        remaining: Seq<AbstractValue>,
        done: Seq<AbstractValue>,
        current: Option<AbstractValue>,
    },
    /// Folds list elements into an accumulator kept on the data stack.
    FoldFrame { lambda: Seq<usize>, remaining: Seq<AbstractValue> },
}

/// The machine after one step, or its final outcome.
pub enum StepModel {
    /// The control stack is empty: evaluation succeeded.
    Finished { data: Seq<AbstractValue> },
    /// Evaluation goes on from this state.
    Continue { frames: Seq<FrameModel>, data: Seq<AbstractValue> },
    /// Evaluation halted on an error; the data stack is as the last
    /// completed step left it.
    Failed { error: EvaluationError, data: Seq<AbstractValue> },
}

/// What one frame does in one step.
pub enum FrameStepModel {
    /// The frame is finished and leaves the control stack.
    Pop { data: Seq<AbstractValue> },
    /// The frame stays, updated in place.
    Continue { frame: FrameModel, data: Seq<AbstractValue> },
    /// The frame stays, updated, and new frames are pushed above it
    /// (`pushed` in stack order: its last element becomes the top).
    Push { frame: FrameModel, data: Seq<AbstractValue>, pushed: Seq<FrameModel> },
    /// The step fails; the data stack is unchanged.
    Failed { error: EvaluationError },
}

/// The frames that execute a composed lambda: one body frame per reference,
/// pushed so that the first reference runs first (ends up on top).
pub open spec fn frames_for(refs: Seq<usize>) -> Seq<FrameModel> {
    Seq::new(refs.len(), |i: int| FrameModel::Body {
        function: refs[refs.len() - 1 - i],
        cursor: 0,
    })
}

/// The effect of one combinator: how it changes the data stack and which
/// frames, if any, it pushes.
pub enum CombEffect {
    Update { data: Seq<AbstractValue> },
    UpdatePush { data: Seq<AbstractValue>, pushed: Seq<FrameModel> },
    Fail { error: EvaluationError },
}

pub open spec fn insufficient(c: Combinator) -> CombEffect {
    CombEffect::Fail { error: EvaluationError::InsufficientStack { combinator: c } }
}

pub open spec fn mismatch(c: Combinator) -> CombEffect {
    CombEffect::Fail { error: EvaluationError::TypeMismatch { combinator: c } }
}

/// Two integers popped, one pushed: `+ - * / %`. Division and remainder
/// reject a zero divisor.
pub open spec fn arithmetic_effect(c: Combinator, data: Seq<AbstractValue>) -> CombEffect {
    if data.len() < 2 {
        insufficient(c)
    } else {
        let a = data[data.len() - 2];
        let b = data[data.len() - 1];
        if !(a is Int) || !(b is Int) {
            mismatch(c)
        } else {
            let x = a->Int_i;
            let y = b->Int_i;
            if (c == Combinator::Divide || c == Combinator::Modulo) && y == 0 {
                mismatch(c)
            } else {
                let value = match c {
                    Combinator::Add => x + y,
                    Combinator::Subtract => x - y,
                    Combinator::Multiply => x * y,
                    Combinator::Divide => trunc_div(x, y),
                    _ => trunc_rem(x, y),
                };
                CombEffect::Update {
                    data: data.drop_last().drop_last().push(AbstractValue::Int { i: value }),
                }
            }
        }
    }
}

/// Two booleans popped, one pushed: `& | ^`.
pub open spec fn boolean_effect(c: Combinator, data: Seq<AbstractValue>) -> CombEffect {
    if data.len() < 2 {
        insufficient(c)
    } else {
        let a = data[data.len() - 2];
        let b = data[data.len() - 1];
        if !(a is Boolean) || !(b is Boolean) {
            mismatch(c)
        } else {
            let x = a->Boolean_b;
            let y = b->Boolean_b;
            let value = match c {
                Combinator::And => x && y,
                Combinator::Or => x || y,
                _ => x != y,
            };
            CombEffect::Update {
                data: data.drop_last().drop_last().push(AbstractValue::Boolean { b: value }),
            }
        }
    }
}

/// The effect of one combinator on the data stack and, for the functional
/// and higher-order list combinators, on the control stack.
pub open spec fn combinator_effect(c: Combinator, data: Seq<AbstractValue>) -> CombEffect {
    match c {
        Combinator::Add => arithmetic_effect(c, data),
        Combinator::Subtract => arithmetic_effect(c, data),
        Combinator::Multiply => arithmetic_effect(c, data),
        Combinator::Divide => arithmetic_effect(c, data),
        Combinator::Modulo => arithmetic_effect(c, data),
        Combinator::And => boolean_effect(c, data),
        Combinator::Or => boolean_effect(c, data),
        Combinator::ExclusiveOr => boolean_effect(c, data),
        Combinator::Not => {
            if data.len() < 1 {
                insufficient(c)
            } else if !(data.last() is Boolean) {
                mismatch(c)
            } else {
                CombEffect::Update {
                    data: data.drop_last().push(
                        AbstractValue::Boolean { b: !data.last()->Boolean_b },
                    ),
                }
            }
        },
        Combinator::Equality => {
            if data.len() < 2 {
                insufficient(c)
            } else {
                CombEffect::Update {
                    data: data.drop_last().drop_last().push(
                        AbstractValue::Boolean { b: data[data.len() - 2] == data[data.len() - 1] },
                    ),
                }
            }
        },
        Combinator::GreaterThan => {
            if data.len() < 2 {
                insufficient(c)
            } else if !(data[data.len() - 2] is Int) || !(data[data.len() - 1] is Int) {
                mismatch(c)
            } else {
                CombEffect::Update {
                    data: data.drop_last().drop_last().push(
                        AbstractValue::Boolean {
                            b: data[data.len() - 2]->Int_i > data[data.len() - 1]->Int_i,
                        },
                    ),
                }
            }
        },
        Combinator::LessThan => {
            if data.len() < 2 {
                insufficient(c)
            } else if !(data[data.len() - 2] is Int) || !(data[data.len() - 1] is Int) {
                mismatch(c)
            } else {
                CombEffect::Update {
                    data: data.drop_last().drop_last().push(
                        AbstractValue::Boolean {
                            b: data[data.len() - 2]->Int_i < data[data.len() - 1]->Int_i,
                        },
                    ),
                }
            }
        },
        Combinator::Apply => {
            if data.len() < 1 {
                insufficient(c)
            } else if !(data.last() is Lambda) {
                mismatch(c)
            } else {
                CombEffect::UpdatePush {
                    data: data.drop_last(),
                    pushed: frames_for(data.last()->Lambda_refs),
                }
            }
        },
        Combinator::Compose => {
            if data.len() < 2 {
                insufficient(c)
            } else if !(data[data.len() - 2] is Lambda) || !(data[data.len() - 1] is Lambda) {
                mismatch(c)
            } else {
                CombEffect::Update {
                    data: data.drop_last().drop_last().push(
                        AbstractValue::Lambda {
                            refs: data[data.len() - 2]->Lambda_refs
                                + data[data.len() - 1]->Lambda_refs,
                        },
                    ),
                }
            }
        },
        Combinator::If => {
            if data.len() < 3 {
                insufficient(c)
            } else if !(data[data.len() - 2] is Lambda) || !(data[data.len() - 1] is Lambda) {
                mismatch(c)
            } else if !(data[data.len() - 3] is Boolean) {
                mismatch(c)
            } else {
                let selected = if data[data.len() - 3]->Boolean_b {
                    data[data.len() - 2]->Lambda_refs
                } else {
                    data[data.len() - 1]->Lambda_refs
                };
                CombEffect::UpdatePush {
                    data: data.drop_last().drop_last().drop_last(),
                    pushed: frames_for(selected),
                }
            }
        },
        Combinator::Under => {
            if data.len() < 2 {
                insufficient(c)
            } else if !(data.last() is Lambda) {
                mismatch(c)
            } else {
                CombEffect::UpdatePush {
                    data: data.drop_last().drop_last(),
                    pushed: seq![
                        FrameModel::Restore { value: data[data.len() - 2] },
                    ] + frames_for(data.last()->Lambda_refs),
                }
            }
        },
        Combinator::Append => {
            if data.len() < 2 {
                insufficient(c)
            } else if !(data[data.len() - 2] is List) {
                mismatch(c)
            } else {
                CombEffect::Update {
                    data: data.drop_last().drop_last().push(
                        AbstractValue::List {
                            items: data[data.len() - 2]->List_items.push(data[data.len() - 1]),
                        },
                    ),
                }
            }
        },
        Combinator::Join => {
            if data.len() < 2 {
                insufficient(c)
            } else if !(data[data.len() - 2] is List) || !(data[data.len() - 1] is List) {
                mismatch(c)
            } else {
                CombEffect::Update {
                    data: data.drop_last().drop_last().push(
                        AbstractValue::List {
                            items: data[data.len() - 2]->List_items
                                + data[data.len() - 1]->List_items,
                        },
                    ),
                }
            }
        },
        Combinator::Count => {
            if data.len() < 1 {
                insufficient(c)
            } else if !(data.last() is List) {
                mismatch(c)
            } else {
                CombEffect::Update {
                    data: data.drop_last().push(
                        AbstractValue::Int { i: data.last()->List_items.len() as int },
                    ),
                }
            }
        },
        Combinator::Head => {
            if data.len() < 1 {
                insufficient(c)
            } else if !(data.last() is List) {
                mismatch(c)
            } else if data.last()->List_items.len() == 0 {
                insufficient(c)
            } else {
                CombEffect::Update {
                    data: data.drop_last().push(data.last()->List_items[0]),
                }
            }
        },
        Combinator::Tail => {
            if data.len() < 1 {
                insufficient(c)
            } else if !(data.last() is List) {
                mismatch(c)
            } else if data.last()->List_items.len() == 0 {
                insufficient(c)
            } else {
                CombEffect::Update {
                    data: data.drop_last().push(
                        AbstractValue::List { items: data.last()->List_items.drop_first() },
                    ),
                }
            }
        },
        Combinator::MapList => {
            if data.len() < 2 {
                insufficient(c)
            } else if !(data.last() is Lambda) || !(data[data.len() - 2] is List) {
                mismatch(c)
            } else {
                CombEffect::UpdatePush {
                    data: data.drop_last().drop_last(),
                    pushed: seq![
                        FrameModel::MapFrame {
                            lambda: data.last()->Lambda_refs,
                            remaining: data[data.len() - 2]->List_items,
                            done: Seq::empty(),
                            awaiting: false,
                        },
                    ],
                }
            }
        },
        Combinator::Filter => {
            if data.len() < 2 {
                insufficient(c)
            } else if !(data.last() is Lambda) || !(data[data.len() - 2] is List) {
                mismatch(c)
            } else {
                CombEffect::UpdatePush {
                    data: data.drop_last().drop_last(),
                    pushed: seq![
                        FrameModel::FilterFrame {
                            lambda: data.last()->Lambda_refs,
                            remaining: data[data.len() - 2]->List_items,
                            done: Seq::empty(),
                            current: None,
                        },
                    ],
                }
            }
        },
        Combinator::Fold => {
            if data.len() < 3 {
                insufficient(c)
            } else if !(data.last() is Lambda) || !(data[data.len() - 3] is List) {
                mismatch(c)
            } else {
                CombEffect::UpdatePush {
                    data: data.drop_last().drop_last().drop_last().push(data[data.len() - 2]),
                    pushed: seq![
                        FrameModel::FoldFrame {
                            lambda: data.last()->Lambda_refs,
                            remaining: data[data.len() - 3]->List_items,
                        },
                    ],
                }
            }
        },
        Combinator::Duplicate => {
            if data.len() < 1 {
                insufficient(c)
            } else {
                CombEffect::Update { data: data.push(data.last()) }
            }
        },
        Combinator::Discard => {
            if data.len() < 1 {
                insufficient(c)
            } else {
                CombEffect::Update { data: data.drop_last() }
            }
        },
        Combinator::Hop => {
            if data.len() < 2 {
                insufficient(c)
            } else {
                CombEffect::Update { data: data.push(data[data.len() - 2]) }
            }
        },
        Combinator::Pick => {
            if data.len() < 1 {
                insufficient(c)
            } else if !(data.last() is Int) {
                mismatch(c)
            } else if data.len() == 1 {
                insufficient(c)
            } else {
                let rest = data.drop_last();
                let index = data.last()->Int_i % (rest.len() as int);
                CombEffect::Update {
                    data: rest.push(rest[rest.len() - 1 - index]),
                }
            }
        },
        Combinator::Rotate => {
            if data.len() < 3 {
                insufficient(c)
            } else {
                let n = data.len() as int;
                CombEffect::Update {
                    data: data.update(n - 3, data[n - 1]).update(n - 2, data[n - 3]).update(
                        n - 1,
                        data[n - 2],
                    ),
                }
            }
        },
        Combinator::Swap => {
            if data.len() < 2 {
                insufficient(c)
            } else {
                let n = data.len() as int;
                CombEffect::Update {
                    data: data.update(n - 2, data[n - 1]).update(n - 1, data[n - 2]),
                }
            }
        },
    }
}

/// A combinator's effect, folded back into the step of the body frame that
/// ran it (`frame` is that frame with its cursor already advanced).
pub open spec fn combinator_step(
    c: Combinator,
    frame: FrameModel,
    data: Seq<AbstractValue>,
) -> FrameStepModel {
    match combinator_effect(c, data) {
        CombEffect::Update { data } => FrameStepModel::Continue { frame, data },
        CombEffect::UpdatePush { data, pushed } => FrameStepModel::Push { frame, data, pushed },
        CombEffect::Fail { error } => FrameStepModel::Failed { error },
    }
}

/// What the top frame does in one step against the arena `bodies`.
pub open spec fn frame_step(
    bodies: Seq<Seq<TermModel>>,
    frame: FrameModel,
    data: Seq<AbstractValue>,
) -> FrameStepModel {
    match frame {
        FrameModel::Body { function, cursor } => {
            let body = bodies[function as int];
            if cursor >= body.len() {
                FrameStepModel::Pop { data }
            } else {
                let advanced = FrameModel::Body { function, cursor: cursor + 1 };
                match body[cursor as int] {
                    TermModel::Data { value } => FrameStepModel::Continue {
                        frame: advanced,
                        data: data.push(value),
                    },
                    TermModel::Application { index } => FrameStepModel::Push {
                        frame: advanced,
                        data,
                        pushed: seq![FrameModel::Body { function: index, cursor: 0 }],
                    },
                    TermModel::Recursion => FrameStepModel::Push {
                        frame: advanced,
                        data,
                        pushed: seq![FrameModel::Body { function, cursor: 0 }],
                    },
                    TermModel::Combinator { combinator } => combinator_step(
                        combinator,
                        advanced,
                        data,
                    ),
                }
            }
        },
        FrameModel::Restore { value } => FrameStepModel::Pop { data: data.push(value) },
        FrameModel::MapFrame { lambda, remaining, done, awaiting } => {
            if awaiting {
                if data.len() == 0 {
                    FrameStepModel::Failed {
                        error: EvaluationError::InsufficientStack {
                            combinator: Combinator::MapList,
                        },
                    }
                } else {
                    FrameStepModel::Continue {
                        frame: FrameModel::MapFrame {
                            lambda,
                            remaining,
                            done: done.push(data.last()),
                            awaiting: false,
                        },
                        data: data.drop_last(),
                    }
                }
            } else if remaining.len() > 0 {
                FrameStepModel::Push {
                    frame: FrameModel::MapFrame {
                        lambda,
                        remaining: remaining.drop_first(),
                        done,
                        awaiting: true,
                    },
                    data: data.push(remaining[0]),
                    pushed: frames_for(lambda),
                }
            } else {
                FrameStepModel::Pop { data: data.push(AbstractValue::List { items: done }) }
            }
        },
        FrameModel::FilterFrame { lambda, remaining, done, current } => {
            match current {
                Some(candidate) => {
                    if data.len() == 0 {
                        FrameStepModel::Failed {
                            error: EvaluationError::InsufficientStack {
                                combinator: Combinator::Filter,
                            },
                        }
                    } else if !(data.last() is Boolean) {
                        FrameStepModel::Failed {
                            error: EvaluationError::TypeMismatch {
                                combinator: Combinator::Filter,
                            },
                        }
                    } else {
                        FrameStepModel::Continue {
                            frame: FrameModel::FilterFrame {
                                lambda,
                                remaining,
                                done: if data.last()->Boolean_b {
                                    done.push(candidate)
                                } else {
                                    done
                                },
                                current: None,
                            },
                            data: data.drop_last(),
                        }
                    }
                },
                None => {
                    if remaining.len() > 0 {
                        FrameStepModel::Push {
                            frame: FrameModel::FilterFrame {
                                lambda,
                                remaining: remaining.drop_first(),
                                done,
                                current: Some(remaining[0]),
                            },
                            data: data.push(remaining[0]),
                            pushed: frames_for(lambda),
                        }
                    } else {
                        FrameStepModel::Pop {
                            data: data.push(AbstractValue::List { items: done }),
                        }
                    }
                },
            }
        },
        FrameModel::FoldFrame { lambda, remaining } => {
            if remaining.len() > 0 {
                FrameStepModel::Push {
                    frame: FrameModel::FoldFrame { lambda, remaining: remaining.drop_first() },
                    data: data.push(remaining[0]),
                    pushed: frames_for(lambda),
                }
            } else {
                FrameStepModel::Pop { data }
            }
        },
    }
}

/// One step of the whole machine: the top frame acts.
pub open spec fn machine_step(
    bodies: Seq<Seq<TermModel>>,
    frames: Seq<FrameModel>,
    data: Seq<AbstractValue>,
) -> StepModel
    recommends
        frames.len() > 0,
{
    match frame_step(bodies, frames.last(), data) {
        FrameStepModel::Pop { data } => StepModel::Continue { frames: frames.drop_last(), data },
        FrameStepModel::Continue { frame, data } => StepModel::Continue {
            frames: frames.drop_last().push(frame),
            data,
        },
        FrameStepModel::Push { frame, data, pushed } => StepModel::Continue {
            frames: frames.drop_last().push(frame) + pushed,
            data,
        },
        FrameStepModel::Failed { error } => StepModel::Failed { error, data },
    }
}

/// The machine after at most `fuel` steps: the final outcome if it is
/// reached within `fuel` steps, else the state the budget ran out in.
pub open spec fn machine_run(
    bodies: Seq<Seq<TermModel>>,
    frames: Seq<FrameModel>,
    data: Seq<AbstractValue>,
    fuel: nat,
) -> StepModel
    decreases fuel,
{
    if frames.len() == 0 {
        StepModel::Finished { data }
    } else if fuel == 0 {
        StepModel::Continue { frames, data }
    } else {
        match machine_step(bodies, frames, data) {
            StepModel::Continue { frames: f, data: d } => machine_run(
                bodies,
                f,
                d,
                (fuel - 1) as nat,
            ),
            other => other,
        }
    }
}

/// Composition preserves execution order: composing the lambda `a` with the
/// lambda `b` and applying the result pushes `b`'s frames below `a`'s, so
/// `a`'s bodies run first, then `b`'s — the same order as running `a` and
/// then `b` directly. In particular the frame on top afterwards is `a`'s
/// first body.
pub proof fn lemma_compose_apply_order(a: Seq<usize>, b: Seq<usize>, data: Seq<AbstractValue>)
    requires
        data.len() >= 2,
        data[data.len() - 2] == (AbstractValue::Lambda { refs: a }),
        data[data.len() - 1] == (AbstractValue::Lambda { refs: b }),
    ensures
        combinator_effect(Combinator::Compose, data) == (CombEffect::Update {
            data: data.drop_last().drop_last().push(AbstractValue::Lambda { refs: a + b }),
        }),
        combinator_effect(
            Combinator::Apply,
            data.drop_last().drop_last().push(AbstractValue::Lambda { refs: a + b }),
        ) matches CombEffect::UpdatePush { data: d, pushed } ==> d == data.drop_last().drop_last()
            && pushed =~= frames_for(b) + frames_for(a),
        a.len() > 0 ==> (frames_for(b) + frames_for(a)).last() == (FrameModel::Body {
            function: a[0],
            cursor: 0,
        }),
{
    let composed = data.drop_last().drop_last().push(AbstractValue::Lambda { refs: a + b });
    assert(composed.last() == (AbstractValue::Lambda { refs: a + b }));
    assert(frames_for(a + b) =~= frames_for(b) + frames_for(a)) by {
        assert forall|i: int| 0 <= i < (a + b).len() implies frames_for(a + b)[i] == (frames_for(
            b,
        ) + frames_for(a))[i] by {
            if i < b.len() {
                assert((a + b)[(a + b).len() - 1 - i] == b[b.len() - 1 - i]);
            } else {
                assert((a + b)[(a + b).len() - 1 - i] == a[a.len() - 1 - (i - b.len())]);
            }
        }
    }
    if a.len() > 0 {
        assert(frames_for(a).last() == (FrameModel::Body { function: a[0], cursor: 0 }));
    }
}

/// A frame is valid for the arena: its references point into it and its
/// cursor stays within its body.
pub open spec fn valid_frame(frame: FrameModel, bodies: Seq<Seq<TermModel>>) -> bool {
    match frame {
        FrameModel::Body { function, cursor } => function < bodies.len() && cursor <= bodies[
            function as int
        ].len(),
        FrameModel::Restore { value } => valid_abstract_value(value, bodies.len()),
        FrameModel::MapFrame { lambda, remaining, done, .. } => valid_references(
            lambda,
            bodies.len(),
        ) && valid_abstract_values(remaining, bodies.len()) && valid_abstract_values(
            done,
            bodies.len(),
        ),
        FrameModel::FilterFrame { lambda, remaining, done, current } => valid_references(
            lambda,
            bodies.len(),
        ) && valid_abstract_values(remaining, bodies.len()) && valid_abstract_values(
            done,
            bodies.len(),
        ) && (current matches Some(v) ==> valid_abstract_value(v, bodies.len())),
        FrameModel::FoldFrame { lambda, remaining } => valid_references(lambda, bodies.len())
            && valid_abstract_values(remaining, bodies.len()),
    }
}

pub open spec fn valid_frames(frames: Seq<FrameModel>, bodies: Seq<Seq<TermModel>>) -> bool {
    forall|i: int| 0 <= i < frames.len() ==> valid_frame(#[trigger] frames[i], bodies)
}

/// Every stored body's references point back into the arena.
pub open spec fn valid_bodies(bodies: Seq<Seq<TermModel>>) -> bool {
    forall|i: int| 0 <= i < bodies.len() ==> crate::term::valid_term_models(
        #[trigger] bodies[i],
        bodies.len() as nat,
    )
}

/// The frames of a valid lambda are valid.
pub proof fn lemma_frames_for_valid(refs: Seq<usize>, bodies: Seq<Seq<TermModel>>)
    requires
        valid_references(refs, bodies.len() as nat),
    ensures
        valid_frames(frames_for(refs), bodies),
{
    crate::value::lemma_valid_references_index(refs, bodies.len() as nat);
    assert forall|i: int| 0 <= i < frames_for(refs).len() implies valid_frame(
        #[trigger] frames_for(refs)[i],
        bodies,
    ) by {
        assert(refs[refs.len() - 1 - i] < bodies.len());
    }
}

/// A combinator's effect keeps the data stack and any pushed frames valid.
pub proof fn lemma_combinator_effect_valid(
    c: Combinator,
    data: Seq<AbstractValue>,
    bodies: Seq<Seq<TermModel>>,
)
    requires
        valid_abstract_values(data, bodies.len() as nat),
    ensures
        combinator_effect(c, data) matches CombEffect::Update { data: d }
            ==> valid_abstract_values(d, bodies.len() as nat),
        combinator_effect(c, data) matches CombEffect::UpdatePush { data: d, pushed }
            ==> valid_abstract_values(d, bodies.len() as nat) && valid_frames(pushed, bodies),
{
    let n = bodies.len() as nat;
    crate::value::lemma_valid_abstract_values_index(data, n);
    if data.len() >= 1 {
        crate::value::lemma_valid_abstract_values_drop_last(data, n);
        if data.len() >= 2 {
            crate::value::lemma_valid_abstract_values_drop_last(data.drop_last(), n);
            if data.len() >= 3 {
                crate::value::lemma_valid_abstract_values_drop_last(
                    data.drop_last().drop_last(),
                    n,
                );
            }
        }
    }
    match combinator_effect(c, data) {
        CombEffect::Update { data: d } => {
            lemma_combinator_update_valid(c, data, bodies);
        },
        CombEffect::UpdatePush { data: d, pushed } => {
            lemma_combinator_push_valid(c, data, bodies);
        },
        CombEffect::Fail { .. } => {},
    }
}

/// The pure stack combinators keep the data stack valid.
proof fn lemma_combinator_update_valid(
    c: Combinator,
    data: Seq<AbstractValue>,
    bodies: Seq<Seq<TermModel>>,
)
    requires
        valid_abstract_values(data, bodies.len() as nat),
        combinator_effect(c, data) is Update,
    ensures
        combinator_effect(c, data) matches CombEffect::Update { data: d }
            ==> valid_abstract_values(d, bodies.len() as nat),
{
    let n = bodies.len() as nat;
    crate::value::lemma_valid_abstract_values_index(data, n);
    let len = data.len() as int;
    if data.len() >= 1 {
        crate::value::lemma_valid_abstract_values_drop_last(data, n);
        if data.len() >= 2 {
            crate::value::lemma_valid_abstract_values_drop_last(data.drop_last(), n);
        }
    }
    match combinator_effect(c, data) {
        CombEffect::Update { data: d } => {
            match c {
                Combinator::Compose => {
                    crate::value::lemma_valid_references_concat(
                        data[len - 2]->Lambda_refs,
                        data[len - 1]->Lambda_refs,
                        n,
                    );
                    crate::value::lemma_valid_abstract_values_push(
                        data.drop_last().drop_last(),
                        AbstractValue::Lambda {
                            refs: data[len - 2]->Lambda_refs + data[len - 1]->Lambda_refs,
                        },
                        n,
                    );
                },
                Combinator::Append => {
                    crate::value::lemma_valid_abstract_values_index(
                        data[len - 2]->List_items,
                        n,
                    );
                    crate::value::lemma_valid_abstract_values_push(
                        data[len - 2]->List_items,
                        data[len - 1],
                        n,
                    );
                    crate::value::lemma_valid_abstract_values_push(
                        data.drop_last().drop_last(),
                        AbstractValue::List {
                            items: data[len - 2]->List_items.push(data[len - 1]),
                        },
                        n,
                    );
                },
                Combinator::Join => {
                    crate::value::lemma_valid_abstract_values_concat(
                        data[len - 2]->List_items,
                        data[len - 1]->List_items,
                        n,
                    );
                    crate::value::lemma_valid_abstract_values_push(
                        data.drop_last().drop_last(),
                        AbstractValue::List {
                            items: data[len - 2]->List_items + data[len - 1]->List_items,
                        },
                        n,
                    );
                },
                Combinator::Head => {
                    crate::value::lemma_valid_abstract_values_index(
                        data[len - 1]->List_items,
                        n,
                    );
                    crate::value::lemma_valid_abstract_values_push(
                        data.drop_last(),
                        data[len - 1]->List_items[0],
                        n,
                    );
                },
                Combinator::Tail => {
                    crate::value::lemma_valid_abstract_values_drop_first(
                        data[len - 1]->List_items,
                        n,
                    );
                    crate::value::lemma_valid_abstract_values_push(
                        data.drop_last(),
                        AbstractValue::List { items: data[len - 1]->List_items.drop_first() },
                        n,
                    );
                },
                Combinator::Duplicate => {
                    crate::value::lemma_valid_abstract_values_push(data, data.last(), n);
                },
                Combinator::Hop => {
                    crate::value::lemma_valid_abstract_values_push(data, data[len - 2], n);
                },
                Combinator::Pick => {
                    let rest = data.drop_last();
                    let index = data.last()->Int_i % (rest.len() as int);
                    vstd::arithmetic::div_mod::lemma_mod_bound(
                        data.last()->Int_i,
                        rest.len() as int,
                    );
                    crate::value::lemma_valid_abstract_values_index(rest, n);
                    crate::value::lemma_valid_abstract_values_push(
                        rest,
                        rest[rest.len() - 1 - index],
                        n,
                    );
                },
                Combinator::Rotate => {
                    crate::value::lemma_valid_abstract_values_update(
                        data,
                        len - 3,
                        data[len - 1],
                        n,
                    );
                    crate::value::lemma_valid_abstract_values_update(
                        data.update(len - 3, data[len - 1]),
                        len - 2,
                        data[len - 3],
                        n,
                    );
                    crate::value::lemma_valid_abstract_values_update(
                        data.update(len - 3, data[len - 1]).update(len - 2, data[len - 3]),
                        len - 1,
                        data[len - 2],
                        n,
                    );
                },
                Combinator::Swap => {
                    crate::value::lemma_valid_abstract_values_update(
                        data,
                        len - 2,
                        data[len - 1],
                        n,
                    );
                    crate::value::lemma_valid_abstract_values_update(
                        data.update(len - 2, data[len - 1]),
                        len - 1,
                        data[len - 2],
                        n,
                    );
                },
                Combinator::Not => lemma_fresh_scalar_one(c, data, n),
                Combinator::Count => lemma_fresh_scalar_one(c, data, n),
                Combinator::Add => lemma_fresh_scalar_two(c, data, n),
                Combinator::Subtract => lemma_fresh_scalar_two(c, data, n),
                Combinator::Multiply => lemma_fresh_scalar_two(c, data, n),
                Combinator::Divide => lemma_fresh_scalar_two(c, data, n),
                Combinator::Modulo => lemma_fresh_scalar_two(c, data, n),
                Combinator::And => lemma_fresh_scalar_two(c, data, n),
                Combinator::Or => lemma_fresh_scalar_two(c, data, n),
                Combinator::ExclusiveOr => lemma_fresh_scalar_two(c, data, n),
                Combinator::Equality => lemma_fresh_scalar_two(c, data, n),
                Combinator::GreaterThan => lemma_fresh_scalar_two(c, data, n),
                Combinator::LessThan => lemma_fresh_scalar_two(c, data, n),
                _ => {},
            }
        },
        _ => {},
    }
}

/// A single-operand combinator whose effect pushes a fresh scalar keeps the
/// data stack valid.
proof fn lemma_fresh_scalar_one(c: Combinator, data: Seq<AbstractValue>, n: nat)
    requires
        valid_abstract_values(data, n),
        combinator_effect(c, data) is Update,
        combinator_effect(c, data) matches CombEffect::Update { data: d2 } ==> d2
            == data.drop_last().push(d2.last()) && (d2.last() is Boolean || d2.last() is Int)
            && data.len() >= 1,
    ensures
        combinator_effect(c, data) matches CombEffect::Update { data: d2 }
            ==> valid_abstract_values(d2, n),
{
    crate::value::lemma_valid_abstract_values_drop_last(data, n);
    match combinator_effect(c, data) {
        CombEffect::Update { data: d2 } => {
            assert(valid_abstract_value(d2.last(), n));
            crate::value::lemma_valid_abstract_values_push(data.drop_last(), d2.last(), n);
        },
        _ => {},
    }
}

/// A two-operand combinator whose effect pushes a fresh scalar keeps the
/// data stack valid.
proof fn lemma_fresh_scalar_two(c: Combinator, data: Seq<AbstractValue>, n: nat)
    requires
        valid_abstract_values(data, n),
        combinator_effect(c, data) is Update,
        combinator_effect(c, data) matches CombEffect::Update { data: d2 } ==> d2
            == data.drop_last().drop_last().push(d2.last()) && (d2.last() is Boolean
            || d2.last() is Int) && data.len() >= 2,
    ensures
        combinator_effect(c, data) matches CombEffect::Update { data: d2 }
            ==> valid_abstract_values(d2, n),
{
    crate::value::lemma_valid_abstract_values_drop_last(data, n);
    crate::value::lemma_valid_abstract_values_drop_last(data.drop_last(), n);
    match combinator_effect(c, data) {
        CombEffect::Update { data: d2 } => {
            assert(valid_abstract_value(d2.last(), n));
            crate::value::lemma_valid_abstract_values_push(
                data.drop_last().drop_last(),
                d2.last(),
                n,
            );
        },
        _ => {},
    }
}

/// The control combinators keep the data stack valid and push valid frames.
proof fn lemma_combinator_push_valid(
    c: Combinator,
    data: Seq<AbstractValue>,
    bodies: Seq<Seq<TermModel>>,
)
    requires
        valid_abstract_values(data, bodies.len() as nat),
        combinator_effect(c, data) is UpdatePush,
    ensures
        combinator_effect(c, data) matches CombEffect::UpdatePush { data: d, pushed }
            ==> valid_abstract_values(d, bodies.len() as nat) && valid_frames(pushed, bodies),
{
    let n = bodies.len() as nat;
    crate::value::lemma_valid_abstract_values_index(data, n);
    let len = data.len() as int;
    if data.len() >= 1 {
        crate::value::lemma_valid_abstract_values_drop_last(data, n);
        if data.len() >= 2 {
            crate::value::lemma_valid_abstract_values_drop_last(data.drop_last(), n);
            if data.len() >= 3 {
                crate::value::lemma_valid_abstract_values_drop_last(
                    data.drop_last().drop_last(),
                    n,
                );
            }
        }
    }
    match c {
        Combinator::Apply => {
            lemma_frames_for_valid(data[len - 1]->Lambda_refs, bodies);
        },
        Combinator::If => {
            if data[len - 3]->Boolean_b {
                lemma_frames_for_valid(data[len - 2]->Lambda_refs, bodies);
            } else {
                lemma_frames_for_valid(data[len - 1]->Lambda_refs, bodies);
            }
        },
        Combinator::Under => {
            lemma_frames_for_valid(data[len - 1]->Lambda_refs, bodies);
            let pushed = seq![FrameModel::Restore { value: data[len - 2] }] + frames_for(
                data[len - 1]->Lambda_refs,
            );
            assert forall|i: int| 0 <= i < pushed.len() implies valid_frame(
                #[trigger] pushed[i],
                bodies,
            ) by {
                if i == 0 {
                    assert(pushed[0] == FrameModel::Restore { value: data[len - 2] });
                } else {
                    assert(pushed[i] == frames_for(data[len - 1]->Lambda_refs)[i - 1]);
                    assert(valid_frame(frames_for(data[len - 1]->Lambda_refs)[i - 1], bodies));
                }
            }
        },
        Combinator::MapList => {
            let pushed = seq![
                FrameModel::MapFrame {
                    lambda: data[len - 1]->Lambda_refs,
                    remaining: data[len - 2]->List_items,
                    done: Seq::empty(),
                    awaiting: false,
                },
            ];
            assert(valid_frame(pushed[0], bodies));
        },
        Combinator::Filter => {
            let pushed = seq![
                FrameModel::FilterFrame {
                    lambda: data[len - 1]->Lambda_refs,
                    remaining: data[len - 2]->List_items,
                    done: Seq::empty(),
                    current: None,
                },
            ];
            assert(valid_frame(pushed[0], bodies));
        },
        Combinator::Fold => {
            crate::value::lemma_valid_abstract_values_push(
                data.drop_last().drop_last().drop_last(),
                data[len - 2],
                n,
            );
            let pushed = seq![
                FrameModel::FoldFrame {
                    lambda: data[len - 1]->Lambda_refs,
                    remaining: data[len - 3]->List_items,
                },
            ];
            assert(valid_frame(pushed[0], bodies));
        },
        _ => {},
    }
}

/// One frame step keeps every part of the machine valid.
pub proof fn lemma_frame_step_valid(
    bodies: Seq<Seq<TermModel>>,
    frame: FrameModel,
    data: Seq<AbstractValue>,
)
    requires
        valid_bodies(bodies),
        valid_frame(frame, bodies),
        valid_abstract_values(data, bodies.len() as nat),
    ensures
        frame_step(bodies, frame, data) matches FrameStepModel::Pop { data: d }
            ==> valid_abstract_values(d, bodies.len() as nat),
        frame_step(bodies, frame, data) matches FrameStepModel::Continue { frame: f, data: d }
            ==> valid_frame(f, bodies) && valid_abstract_values(d, bodies.len() as nat),
        frame_step(bodies, frame, data) matches FrameStepModel::Push { frame: f, data: d, pushed }
            ==> valid_frame(f, bodies) && valid_abstract_values(d, bodies.len() as nat)
            && valid_frames(pushed, bodies),
{
    let n = bodies.len() as nat;
    crate::value::lemma_valid_abstract_values_index(data, n);
    match frame {
        FrameModel::Body { function, cursor } => {
            let body = bodies[function as int];
            if cursor < body.len() {
                assert(crate::term::valid_term_models(body, n));
                assert(crate::term::valid_term_model(body[cursor as int], n));
                match body[cursor as int] {
                    TermModel::Data { value } => {
                        crate::value::lemma_valid_abstract_values_push(data, value, n);
                    },
                    TermModel::Combinator { combinator } => {
                        lemma_combinator_effect_valid(combinator, data, bodies);
                    },
                    _ => {},
                }
            }
        },
        FrameModel::Restore { value } => {
            crate::value::lemma_valid_abstract_values_push(data, value, n);
        },
        FrameModel::MapFrame { lambda, remaining, done, awaiting } => {
            if awaiting {
                if data.len() > 0 {
                    crate::value::lemma_valid_abstract_values_push(done, data.last(), n);
                    crate::value::lemma_valid_abstract_values_drop_last(data, n);
                }
            } else if remaining.len() > 0 {
                crate::value::lemma_valid_abstract_values_index(remaining, n);
                crate::value::lemma_valid_abstract_values_drop_first(remaining, n);
                crate::value::lemma_valid_abstract_values_push(data, remaining[0], n);
                lemma_frames_for_valid(lambda, bodies);
            } else {
                crate::value::lemma_valid_abstract_values_push(
                    data,
                    AbstractValue::List { items: done },
                    n,
                );
            }
        },
        FrameModel::FilterFrame { lambda, remaining, done, current } => {
            match current {
                Some(candidate) => {
                    if data.len() > 0 && data.last() is Boolean {
                        if data.last()->Boolean_b {
                            crate::value::lemma_valid_abstract_values_push(done, candidate, n);
                        }
                        crate::value::lemma_valid_abstract_values_drop_last(data, n);
                    }
                },
                None => {
                    if remaining.len() > 0 {
                        crate::value::lemma_valid_abstract_values_index(remaining, n);
                        crate::value::lemma_valid_abstract_values_drop_first(remaining, n);
                        crate::value::lemma_valid_abstract_values_push(data, remaining[0], n);
                        lemma_frames_for_valid(lambda, bodies);
                    } else {
                        crate::value::lemma_valid_abstract_values_push(
                            data,
                            AbstractValue::List { items: done },
                            n,
                        );
                    }
                },
            }
        },
        FrameModel::FoldFrame { lambda, remaining } => {
            if remaining.len() > 0 {
                crate::value::lemma_valid_abstract_values_index(remaining, n);
                crate::value::lemma_valid_abstract_values_drop_first(remaining, n);
                crate::value::lemma_valid_abstract_values_push(data, remaining[0], n);
                lemma_frames_for_valid(lambda, bodies);
            }
        },
    }
}

} // verus!
