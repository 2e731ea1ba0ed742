//! The executable evaluator.
//!
//! A [`VirtualMachine`] walks a stored function's terms against a
//! [`DataStack`], using an explicit [`ControlStack`] of [`ControlFrame`]s
//! rather than native call recursion: nested applications push new frames,
//! popping a finished frame returns to its caller, and the higher-order list
//! combinators run each element through the same frame machinery. Every step
//! is proved to perform exactly one [`machine_step`] of the specification
//! machine in [`crate::machine`].

use vstd::prelude::*;
use crate::combinator::{Combinator, EvaluationError};
use crate::machine::{
    combinator_effect, frame_step, frames_for, lemma_frame_step_valid, lemma_frames_for_valid,
    machine_run, machine_step, valid_bodies, valid_frame, valid_frames, CombEffect, FrameModel,
    FrameStepModel, StepModel,
};
use crate::stack::DataStack;
use crate::storage::{FunctionReference, FunctionStorage, LambdaReference};
use crate::term::{Term, TermModel};
use crate::value::{
    lemma_value_models_drop_first, lemma_value_models_index, lemma_value_models_len,
    lemma_value_models_push, value_model, value_models, AbstractValue, Value,
};

verus! {

/// One activation record: a function being executed, a saved value to
/// restore, or the state of a higher-order list combinator.
pub enum ControlFrame {
    /// Executes the stored body `function`, next term at `cursor`.
    Body { function: usize, cursor: usize },
    /// Restores a saved value on top of the data stack, then finishes.
    Restore { value: Value },
    /// Applies a lambda to each element of a list, collecting the results.
    MapFrame { lambda: LambdaReference, remaining: Vec<Value>, done: Vec<Value>, awaiting: bool },
    /// Applies a predicate to each element, keeping those it accepts.
    FilterFrame {
        lambda: LambdaReference,
        remaining: Vec<Value>,
        done: Vec<Value>,
        current: Option<Value>,
    },
    /// Folds the elements into an accumulator kept on the data stack.
    FoldFrame { lambda: LambdaReference, remaining: Vec<Value> },
}

/// The abstract content of a control frame.
pub open spec fn frame_model(f: ControlFrame) -> FrameModel {
    match f {
        ControlFrame::Body { function, cursor } => FrameModel::Body {
            function,
            cursor: cursor as nat,
        },
        ControlFrame::Restore { value } => FrameModel::Restore { value: value_model(value) },
        ControlFrame::MapFrame { lambda, remaining, done, awaiting } => FrameModel::MapFrame {
            lambda: lambda.model(),
            remaining: value_models(remaining@),
            done: value_models(done@),
            awaiting,
        },
        ControlFrame::FilterFrame { lambda, remaining, done, current } => FrameModel::FilterFrame {
            lambda: lambda.model(),
            remaining: value_models(remaining@),
            done: value_models(done@),
            current: match current {
                Some(v) => Some(value_model(v)),
                None => None,
            },
        },
        ControlFrame::FoldFrame { lambda, remaining } => FrameModel::FoldFrame {
            lambda: lambda.model(),
            remaining: value_models(remaining@),
        },
    }
}

/// The abstract contents of a sequence of control frames, in order.
pub open spec fn frame_models(fs: Seq<ControlFrame>) -> Seq<FrameModel>
    decreases fs,
{
    if fs.len() == 0 {
        Seq::empty()
    } else {
        seq![frame_model(fs[0])] + frame_models(fs.drop_first())
    }
}

pub proof fn lemma_frame_models_len(fs: Seq<ControlFrame>)
    ensures
        frame_models(fs).len() == fs.len(),
    decreases fs,
{
    if fs.len() > 0 {
        lemma_frame_models_len(fs.drop_first());
    }
}

pub proof fn lemma_frame_models_index(fs: Seq<ControlFrame>, i: int)
    requires
        0 <= i < fs.len(),
    ensures
        frame_models(fs).len() == fs.len(),
        frame_models(fs)[i] == frame_model(fs[i]),
    decreases fs,
{
    lemma_frame_models_len(fs);
    if i > 0 {
        lemma_frame_models_index(fs.drop_first(), i - 1);
    }
}

pub proof fn lemma_frame_models_push(fs: Seq<ControlFrame>, f: ControlFrame)
    ensures
        frame_models(fs.push(f)) =~= frame_models(fs).push(frame_model(f)),
{
    lemma_frame_models_len(fs);
    lemma_frame_models_len(fs.push(f));
    lemma_frame_models_index(fs.push(f), fs.len() as int);
    assert forall|i: int| 0 <= i < fs.len() implies frame_models(fs.push(f))[i] == frame_models(
        fs,
    ).push(frame_model(f))[i] by {
        lemma_frame_models_index(fs.push(f), i);
        lemma_frame_models_index(fs, i);
        assert(fs.push(f)[i] == fs[i]);
    }
}

pub proof fn lemma_frame_models_concat(a: Seq<ControlFrame>, b: Seq<ControlFrame>)
    ensures
        frame_models(a + b) =~= frame_models(a) + frame_models(b),
{
    lemma_frame_models_len(a);
    lemma_frame_models_len(b);
    lemma_frame_models_len(a + b);
    assert forall|i: int| 0 <= i < a.len() + b.len() implies frame_models(a + b)[i] == (
    frame_models(a) + frame_models(b))[i] by {
        lemma_frame_models_index(a + b, i);
        if i < a.len() {
            lemma_frame_models_index(a, i);
            assert((a + b)[i] == a[i]);
        } else {
            lemma_frame_models_index(b, i - a.len());
            assert((a + b)[i] == b[i - a.len()]);
        }
    }
}

pub proof fn lemma_frame_models_drop_last(fs: Seq<ControlFrame>)
    requires
        fs.len() > 0,
    ensures
        frame_models(fs.drop_last()) =~= frame_models(fs).drop_last(),
{
    lemma_frame_models_len(fs);
    lemma_frame_models_len(fs.drop_last());
    assert forall|i: int| 0 <= i < fs.drop_last().len() implies frame_models(fs.drop_last())[i]
        == frame_models(fs).drop_last()[i] by {
        lemma_frame_models_index(fs.drop_last(), i);
        lemma_frame_models_index(fs, i);
        assert(fs.drop_last()[i] == fs[i]);
    }
}

impl ControlFrame {
    /// Starts executing a stored function from its beginning.
    pub fn from_function(function_reference: &FunctionReference) -> (r: ControlFrame)
        ensures
            frame_model(r) == (FrameModel::Body {
                function: function_reference.index(),
                cursor: 0 as nat,
            }),
    {
        ControlFrame::Body { function: function_reference.function_index(), cursor: 0 }
    }
}

/// The frames that will execute a composed lambda, bottom first: the
/// lambda's first body ends up on top of the control stack.
fn frames_for_lambda(lambda: &LambdaReference) -> (r: Vec<ControlFrame>)
    ensures
        frame_models(r@) =~= frames_for(lambda.model()),
{
    let indices = lambda.indices();
    let total = indices.len();
    let mut frames: Vec<ControlFrame> = Vec::new();
    let mut j: usize = 0;
    while j < total
        invariant
            0 <= j <= total,
            total == indices@.len(),
            indices@ == lambda.model(),
            frames@.len() == j,
            forall|i: int| 0 <= i < j ==> frame_model(#[trigger] frames@[i])
                == frames_for(lambda.model())[i],
        decreases total - j,
    {
        let frame = ControlFrame::Body { function: indices[total - 1 - j], cursor: 0 };
        frames.push(frame);
        j += 1;
    }
    proof {
        lemma_frame_models_len(frames@);
        assert forall|i: int| 0 <= i < frames@.len() implies frame_models(frames@)[i]
            == frames_for(lambda.model())[i] by {
            lemma_frame_models_index(frames@, i);
        }
    }
    frames
}

/// Describes how the evaluator should adjust the control stack after one
/// step of the frame on top.
pub enum ControlAction {
    /// The frame stays on top; evaluation continues.
    Continue,
    /// Evaluation halts with an error.
    Error(EvaluationError),
    /// The frame is finished and leaves the control stack.
    Pop,
    /// The frame stays, and these frames are pushed above it (the last one
    /// becomes the new top).
    Push(Vec<ControlFrame>),
}

/// The stack of control frames representing function activations.
pub struct ControlStack(Vec<ControlFrame>);

impl ControlStack {
    /// The abstract contents, bottom first.
    pub closed spec fn model(self) -> Seq<FrameModel> {
        frame_models(self.0@)
    }

    /// Creates an empty control stack.
    pub fn new() -> (r: ControlStack)
        ensures
            r.model() =~= Seq::<FrameModel>::empty(),
    {
        ControlStack(Vec::new())
    }

    /// Pushes a frame on top.
    pub fn push_frame(&mut self, frame: ControlFrame)
        ensures
            final(self).model() =~= old(self).model().push(frame_model(frame)),
    {
        proof {
            lemma_frame_models_push(self.0@, frame);
        }
        self.0.push(frame);
    }

    /// Pushes a run of frames, bottom first: the vector's last frame becomes
    /// the new top.
    pub fn push_frames(&mut self, frames: Vec<ControlFrame>)
        ensures
            final(self).model() =~= old(self).model() + frame_models(frames@),
    {
        let ghost before = self.0@;
        let ghost incoming = frames@;
        let mut incoming_frames = frames;
        self.0.append(&mut incoming_frames);
        proof {
            lemma_frame_models_concat(before, incoming);
        }
    }

    /// Whether no frame is left.
    pub fn is_empty(&self) -> (r: bool)
        ensures
            r == (self.model().len() == 0),
    {
        proof {
            lemma_frame_models_len(self.0@);
        }
        self.0.len() == 0
    }

    /// Removes and returns the top frame.
    pub fn pop_frame(&mut self) -> (r: Option<ControlFrame>)
        ensures
            old(self).model().len() == 0 ==> r is None && final(self).model() == old(
                self,
            ).model(),
            old(self).model().len() > 0 ==> (r matches Some(f) && frame_model(f) == old(
                self,
            ).model().last() && final(self).model() =~= old(self).model().drop_last()),
    {
        proof {
            lemma_frame_models_len(self.0@);
            if self.0@.len() > 0 {
                lemma_frame_models_index(self.0@, self.0@.len() - 1);
                lemma_frame_models_drop_last(self.0@);
            }
        }
        self.0.pop()
    }
}

/// The action an executed combinator yields agrees with its specified
/// effect: the same data stack afterwards, the same frames pushed, and on
/// failure the same error with the stack untouched.
pub open spec fn action_models_effect(
    effect: CombEffect,
    pre: Seq<AbstractValue>,
    post: Seq<AbstractValue>,
    r: ControlAction,
) -> bool {
    match effect {
        CombEffect::Update { data } => r is Continue && post == data,
        CombEffect::UpdatePush { data, pushed } => (r matches ControlAction::Push(fs) && post
            == data && frame_models(fs@) == pushed),
        CombEffect::Fail { error } => r == ControlAction::Error(error) && post == pre,
    }
}

/// Pops two integers and pushes the result of the operation.
fn arithmetic_action(c: Combinator, data: &mut DataStack) -> (r: ControlAction)
    requires
        c == Combinator::Add || c == Combinator::Subtract || c == Combinator::Multiply || c
            == Combinator::Divide || c == Combinator::Modulo,
    ensures
        action_models_effect(
            combinator_effect(c, old(data).model()),
            old(data).model(),
            final(data).model(),
            r,
        ),
{
    let size = data.size();
    if size < 2 {
        return ControlAction::Error(EvaluationError::InsufficientStack { combinator: c });
    }
    let computed: Result<Value, EvaluationError> = match (
        data.get_from_top(1),
        data.get_from_top(0),
    ) {
        (Some(Value::Integer(a)), Some(Value::Integer(b))) => {
            if (c == Combinator::Divide || c == Combinator::Modulo) && b.is_zero() {
                Err(EvaluationError::TypeMismatch { combinator: c })
            } else {
                let value = match c {
                    Combinator::Add => a.add(b),
                    Combinator::Subtract => a.sub(b),
                    Combinator::Multiply => a.mul(b),
                    Combinator::Divide => a.div(b),
                    _ => a.rem(b),
                };
                Ok(Value::Integer(value))
            }
        },
        _ => Err(EvaluationError::TypeMismatch { combinator: c }),
    };
    match computed {
        Err(e) => ControlAction::Error(e),
        Ok(v) => {
            let _ = data.pop();
            let _ = data.pop();
            data.push(v);
            ControlAction::Continue
        },
    }
}

/// Pops two booleans and pushes the result of the operation.
fn boolean_action(c: Combinator, data: &mut DataStack) -> (r: ControlAction)
    requires
        c == Combinator::And || c == Combinator::Or || c == Combinator::ExclusiveOr,
    ensures
        action_models_effect(
            combinator_effect(c, old(data).model()),
            old(data).model(),
            final(data).model(),
            r,
        ),
{
    let size = data.size();
    if size < 2 {
        return ControlAction::Error(EvaluationError::InsufficientStack { combinator: c });
    }
    let computed: Result<Value, EvaluationError> = match (
        data.get_from_top(1),
        data.get_from_top(0),
    ) {
        (Some(Value::Boolean(x)), Some(Value::Boolean(y))) => {
            let value = match c {
                Combinator::And => *x && *y,
                Combinator::Or => *x || *y,
                _ => *x ^ *y,
            };
            Ok(Value::Boolean(value))
        },
        _ => Err(EvaluationError::TypeMismatch { combinator: c }),
    };
    match computed {
        Err(e) => ControlAction::Error(e),
        Ok(v) => {
            let _ = data.pop();
            let _ = data.pop();
            data.push(v);
            ControlAction::Continue
        },
    }
}

/// Pops two integers and pushes the result of the comparison.
fn comparison_action(c: Combinator, data: &mut DataStack) -> (r: ControlAction)
    requires
        c == Combinator::GreaterThan || c == Combinator::LessThan,
    ensures
        action_models_effect(
            combinator_effect(c, old(data).model()),
            old(data).model(),
            final(data).model(),
            r,
        ),
{
    let size = data.size();
    if size < 2 {
        return ControlAction::Error(EvaluationError::InsufficientStack { combinator: c });
    }
    let computed: Result<Value, EvaluationError> = match (
        data.get_from_top(1),
        data.get_from_top(0),
    ) {
        (Some(Value::Integer(a)), Some(Value::Integer(b))) => {
            let value = if c == Combinator::GreaterThan {
                a.greater_than(b)
            } else {
                a.less_than(b)
            };
            Ok(Value::Boolean(value))
        },
        _ => Err(EvaluationError::TypeMismatch { combinator: c }),
    };
    match computed {
        Err(e) => ControlAction::Error(e),
        Ok(v) => {
            let _ = data.pop();
            let _ = data.pop();
            data.push(v);
            ControlAction::Continue
        },
    }
}

/// Pops two values of any kind and pushes whether they are structurally
/// equal.
fn equality_action(data: &mut DataStack) -> (r: ControlAction)
    ensures
        action_models_effect(
            combinator_effect(Combinator::Equality, old(data).model()),
            old(data).model(),
            final(data).model(),
            r,
        ),
{
    let size = data.size();
    if size < 2 {
        return ControlAction::Error(
            EvaluationError::InsufficientStack { combinator: Combinator::Equality },
        );
    }
    let equal = match (data.get_from_top(1), data.get_from_top(0)) {
        (Some(a), Some(b)) => a.equals(b),
        _ => false,
    };
    let _ = data.pop();
    let _ = data.pop();
    data.push(Value::Boolean(equal));
    ControlAction::Continue
}

impl Combinator {
    /// Executes this combinator against the data stack; the functional and
    /// higher-order list combinators additionally hand back the control
    /// frames to push.
    ///
    /// A failing combinator reports its error and leaves the data stack
    /// exactly as it was.
    pub fn evaluate(&self, data: &mut DataStack) -> (r: ControlAction)
        ensures
            action_models_effect(
                combinator_effect(*self, old(data).model()),
                old(data).model(),
                final(data).model(),
                r,
            ),
    {
        let c = *self;
        match c {
            Combinator::Add => arithmetic_action(c, data),
            Combinator::Subtract => arithmetic_action(c, data),
            Combinator::Multiply => arithmetic_action(c, data),
            Combinator::Divide => arithmetic_action(c, data),
            Combinator::Modulo => arithmetic_action(c, data),
            Combinator::And => boolean_action(c, data),
            Combinator::Or => boolean_action(c, data),
            Combinator::ExclusiveOr => boolean_action(c, data),
            Combinator::GreaterThan => comparison_action(c, data),
            Combinator::LessThan => comparison_action(c, data),
            Combinator::Equality => equality_action(data),
            Combinator::Not => {
                let computed: Result<Value, EvaluationError> = match data.get_from_top(0) {
                    Some(Value::Boolean(x)) => Ok(Value::Boolean(!*x)),
                    Some(_) => Err(EvaluationError::TypeMismatch { combinator: c }),
                    None => Err(EvaluationError::InsufficientStack { combinator: c }),
                };
                match computed {
                    Err(e) => ControlAction::Error(e),
                    Ok(v) => {
                        let _ = data.pop();
                        data.push(v);
                        ControlAction::Continue
                    },
                }
            },
            Combinator::Duplicate => {
                let computed: Option<Value> = match data.get_from_top(0) {
                    Some(v) => Some(v.duplicate()),
                    None => None,
                };
                match computed {
                    None => ControlAction::Error(
                        EvaluationError::InsufficientStack { combinator: c },
                    ),
                    Some(v) => {
                        data.push(v);
                        ControlAction::Continue
                    },
                }
            },
            Combinator::Discard => {
                match data.pop() {
                    None => ControlAction::Error(
                        EvaluationError::InsufficientStack { combinator: c },
                    ),
                    Some(_) => ControlAction::Continue,
                }
            },
            Combinator::Hop => {
                let computed: Option<Value> = match data.get_from_top(1) {
                    Some(v) => Some(v.duplicate()),
                    None => None,
                };
                match computed {
                    None => ControlAction::Error(
                        EvaluationError::InsufficientStack { combinator: c },
                    ),
                    Some(v) => {
                        data.push(v);
                        ControlAction::Continue
                    },
                }
            },
            Combinator::Swap => {
                let size = data.size();
                if size < 2 {
                    return ControlAction::Error(
                        EvaluationError::InsufficientStack { combinator: c },
                    );
                }
                let top: Value = match data.get_from_top(0) {
                    Some(v) => v.duplicate(),
                    // Unreachable: the checks above proved the operand exists.
                    None => Value::Boolean(false),
                };
                let below: Value = match data.get_from_top(1) {
                    Some(v) => v.duplicate(),
                    // Unreachable: the checks above proved the operand exists.
                    None => Value::Boolean(false),
                };
                data.set_from_top(0, below);
                data.set_from_top(1, top);
                proof {
                    let pre = old(data).model();
                    let n = pre.len() as int;
                    assert(data.model() =~= pre.update(n - 2, pre[n - 1]).update(
                        n - 1,
                        pre[n - 2],
                    ));
                }
                ControlAction::Continue
            },
            Combinator::Rotate => {
                let size = data.size();
                if size < 3 {
                    return ControlAction::Error(
                        EvaluationError::InsufficientStack { combinator: c },
                    );
                }
                let v0: Value = match data.get_from_top(0) {
                    Some(v) => v.duplicate(),
                    // Unreachable: the checks above proved the operand exists.
                    None => Value::Boolean(false),
                };
                let v1: Value = match data.get_from_top(1) {
                    Some(v) => v.duplicate(),
                    // Unreachable: the checks above proved the operand exists.
                    None => Value::Boolean(false),
                };
                let v2: Value = match data.get_from_top(2) {
                    Some(v) => v.duplicate(),
                    // Unreachable: the checks above proved the operand exists.
                    None => Value::Boolean(false),
                };
                data.set_from_top(2, v0);
                data.set_from_top(1, v2);
                data.set_from_top(0, v1);
                proof {
                    let pre = old(data).model();
                    let n = pre.len() as int;
                    assert(data.model() =~= pre.update(n - 3, pre[n - 1]).update(
                        n - 2,
                        pre[n - 3],
                    ).update(n - 1, pre[n - 2]));
                }
                ControlAction::Continue
            },
            Combinator::Pick => {
                let ok = match data.get_from_top(0) {
                    Some(Value::Integer(_)) => Ok(()),
                    Some(_) => Err(EvaluationError::TypeMismatch { combinator: c }),
                    None => Err(EvaluationError::InsufficientStack { combinator: c }),
                };
                match ok {
                    Err(e) => ControlAction::Error(e),
                    Ok(()) => {
                        let popped = match data.pop() {
                            Some(v) => v,
                            // Unreachable: the checks above proved the operand exists.
                            None => Value::Boolean(false),
                        };
                        match popped {
                            Value::Integer(index_value) => {
                                let n = data.size();
                                if n == 0 {
                                    data.push(Value::Integer(index_value));
                                    proof {
                                        assert(data.model() =~= old(data).model());
                                    }
                                    ControlAction::Error(
                                        EvaluationError::InsufficientStack { combinator: c },
                                    )
                                } else {
                                    let index = index_value.as_wrapping_index(n);
                                    proof {
                                        crate::integer::lemma_wrap_equals_mod(
                                            index_value.value(),
                                            n as int,
                                        );
                                    }
                                    let picked: Value = match data.get_from_top(index) {
                                        Some(v) => v.duplicate(),
                                        // Unreachable: the checks above proved the operand exists.
                                        None => Value::Boolean(false),
                                    };
                                    data.push(picked);
                                    ControlAction::Continue
                                }
                            },
                            other => {
                                data.push(other);
                                ControlAction::Error(
                                    EvaluationError::TypeMismatch { combinator: c },
                                )
                            },
                        }
                    },
                }
            },
            Combinator::Apply => {
                let ok = match data.get_from_top(0) {
                    Some(Value::Lambda(_)) => Ok(()),
                    Some(_) => Err(EvaluationError::TypeMismatch { combinator: c }),
                    None => Err(EvaluationError::InsufficientStack { combinator: c }),
                };
                match ok {
                    Err(e) => ControlAction::Error(e),
                    Ok(()) => {
                        let popped = match data.pop() {
                            Some(v) => v,
                            // Unreachable: the checks above proved the operand exists.
                            None => Value::Boolean(false),
                        };
                        match popped {
                            Value::Lambda(lambda) => {
                                let frames = frames_for_lambda(&lambda);
                                ControlAction::Push(frames)
                            },
                            other => {
                                data.push(other);
                                ControlAction::Error(
                                    EvaluationError::TypeMismatch { combinator: c },
                                )
                            },
                        }
                    },
                }
            },
            Combinator::Compose => {
                let size = data.size();
                if size < 2 {
                    return ControlAction::Error(
                        EvaluationError::InsufficientStack { combinator: c },
                    );
                }
                let kinds_ok = match (data.get_from_top(1), data.get_from_top(0)) {
                    (Some(Value::Lambda(_)), Some(Value::Lambda(_))) => true,
                    _ => false,
                };
                if !kinds_ok {
                    return ControlAction::Error(
                        EvaluationError::TypeMismatch { combinator: c },
                    );
                }
                let second = match data.pop() {
                    Some(v) => v,
                    // Unreachable: the checks above proved the operand exists.
                    None => Value::Boolean(false),
                };
                let first = match data.pop() {
                    Some(v) => v,
                    // Unreachable: the checks above proved the operand exists.
                    None => Value::Boolean(false),
                };
                match (first, second) {
                    (Value::Lambda(a), Value::Lambda(b)) => {
                        let combined = a.compose(b);
                        proof {
                            let pre = old(data).model();
                            assert(combined.model() == pre[pre.len() - 2]->Lambda_refs + pre[
                                pre.len() - 1
                            ]->Lambda_refs);
                        }
                        data.push(Value::Lambda(combined));
                        ControlAction::Continue
                    },
                    (x, y) => {
                        data.push(x);
                        data.push(y);
                        ControlAction::Error(EvaluationError::TypeMismatch { combinator: c })
                    },
                }
            },
            Combinator::If => {
                let size = data.size();
                if size < 3 {
                    return ControlAction::Error(
                        EvaluationError::InsufficientStack { combinator: c },
                    );
                }
                let lambdas_ok = match (data.get_from_top(1), data.get_from_top(0)) {
                    (Some(Value::Lambda(_)), Some(Value::Lambda(_))) => true,
                    _ => false,
                };
                if !lambdas_ok {
                    return ControlAction::Error(
                        EvaluationError::TypeMismatch { combinator: c },
                    );
                }
                let condition_ok = match data.get_from_top(2) {
                    Some(Value::Boolean(_)) => true,
                    _ => false,
                };
                if !condition_ok {
                    return ControlAction::Error(
                        EvaluationError::TypeMismatch { combinator: c },
                    );
                }
                let false_branch = match data.pop() {
                    Some(v) => v,
                    // Unreachable: the checks above proved the operand exists.
                    None => Value::Boolean(false),
                };
                let true_branch = match data.pop() {
                    Some(v) => v,
                    // Unreachable: the checks above proved the operand exists.
                    None => Value::Boolean(false),
                };
                let condition = match data.pop() {
                    Some(v) => v,
                    // Unreachable: the checks above proved the operand exists.
                    None => Value::Boolean(false),
                };
                match (condition, true_branch, false_branch) {
                    (Value::Boolean(b), Value::Lambda(t), Value::Lambda(f)) => {
                        let frames = if b {
                            frames_for_lambda(&t)
                        } else {
                            frames_for_lambda(&f)
                        };
                        ControlAction::Push(frames)
                    },
                    (x, y, z) => {
                        data.push(x);
                        data.push(y);
                        data.push(z);
                        ControlAction::Error(EvaluationError::TypeMismatch { combinator: c })
                    },
                }
            },
            Combinator::Under => {
                let size = data.size();
                if size < 2 {
                    return ControlAction::Error(
                        EvaluationError::InsufficientStack { combinator: c },
                    );
                }
                let top_ok = match data.get_from_top(0) {
                    Some(Value::Lambda(_)) => true,
                    _ => false,
                };
                if !top_ok {
                    return ControlAction::Error(
                        EvaluationError::TypeMismatch { combinator: c },
                    );
                }
                let lambda_value = match data.pop() {
                    Some(v) => v,
                    // Unreachable: the checks above proved the operand exists.
                    None => Value::Boolean(false),
                };
                let saved = match data.pop() {
                    Some(v) => v,
                    // Unreachable: the checks above proved the operand exists.
                    None => Value::Boolean(false),
                };
                match lambda_value {
                    Value::Lambda(lambda) => {
                        let mut frames: Vec<ControlFrame> = Vec::new();
                        frames.push(ControlFrame::Restore { value: saved });
                        let ghost single = frames@;
                        let mut body_frames = frames_for_lambda(&lambda);
                        let ghost body_seq = body_frames@;
                        frames.append(&mut body_frames);
                        proof {
                            lemma_frame_models_concat(single, body_seq);
                            assert(frame_models(single) =~= seq![
                                FrameModel::Restore {
                                    value: old(data).model()[old(data).model().len() - 2],
                                },
                            ]) by {
                                assert(single.drop_first() =~= Seq::<ControlFrame>::empty());
                                assert(frame_models(Seq::<ControlFrame>::empty())
                                    =~= Seq::<FrameModel>::empty());
                                assert(single[0] == ControlFrame::Restore { value: saved });
                                assert(value_model(saved) == old(data).model()[old(
                                    data,
                                ).model().len() - 2]);
                            }
                        }
                        ControlAction::Push(frames)
                    },
                    other => {
                        data.push(saved);
                        data.push(other);
                        ControlAction::Error(EvaluationError::TypeMismatch { combinator: c })
                    },
                }
            },
            Combinator::Append => {
                let size = data.size();
                if size < 2 {
                    return ControlAction::Error(
                        EvaluationError::InsufficientStack { combinator: c },
                    );
                }
                let below_ok = match data.get_from_top(1) {
                    Some(Value::List(_)) => true,
                    _ => false,
                };
                if !below_ok {
                    return ControlAction::Error(
                        EvaluationError::TypeMismatch { combinator: c },
                    );
                }
                let value = match data.pop() {
                    Some(v) => v,
                    // Unreachable: the checks above proved the operand exists.
                    None => Value::Boolean(false),
                };
                let list_value = match data.pop() {
                    Some(v) => v,
                    // Unreachable: the checks above proved the operand exists.
                    None => Value::Boolean(false),
                };
                match list_value {
                    Value::List(mut items) => {
                        proof {
                            crate::value::lemma_value_models_push(items@, value);
                        }
                        items.push(value);
                        data.push(Value::List(items));
                        ControlAction::Continue
                    },
                    other => {
                        data.push(other);
                        data.push(value);
                        ControlAction::Error(EvaluationError::TypeMismatch { combinator: c })
                    },
                }
            },
            Combinator::Join => {
                let size = data.size();
                if size < 2 {
                    return ControlAction::Error(
                        EvaluationError::InsufficientStack { combinator: c },
                    );
                }
                let kinds_ok = match (data.get_from_top(1), data.get_from_top(0)) {
                    (Some(Value::List(_)), Some(Value::List(_))) => true,
                    _ => false,
                };
                if !kinds_ok {
                    return ControlAction::Error(
                        EvaluationError::TypeMismatch { combinator: c },
                    );
                }
                let second = match data.pop() {
                    Some(v) => v,
                    // Unreachable: the checks above proved the operand exists.
                    None => Value::Boolean(false),
                };
                let first = match data.pop() {
                    Some(v) => v,
                    // Unreachable: the checks above proved the operand exists.
                    None => Value::Boolean(false),
                };
                match (first, second) {
                    (Value::List(mut a_items), Value::List(b_items)) => {
                        let ghost a_seq = a_items@;
                        let ghost b_seq = b_items@;
                        let mut b_owned = b_items;
                        a_items.append(&mut b_owned);
                        proof {
                            crate::value::lemma_value_models_concat(a_seq, b_seq);
                        }
                        data.push(Value::List(a_items));
                        ControlAction::Continue
                    },
                    (x, y) => {
                        data.push(x);
                        data.push(y);
                        ControlAction::Error(EvaluationError::TypeMismatch { combinator: c })
                    },
                }
            },
            Combinator::Count => {
                let computed: Result<usize, EvaluationError> = match data.get_from_top(0) {
                    Some(Value::List(items)) => {
                        proof {
                            lemma_value_models_len(items@);
                        }
                        Ok(items.len())
                    },
                    Some(_) => Err(EvaluationError::TypeMismatch { combinator: c }),
                    None => Err(EvaluationError::InsufficientStack { combinator: c }),
                };
                match computed {
                    Err(e) => ControlAction::Error(e),
                    Ok(n) => {
                        let _ = data.pop();
                        data.push(Value::Integer(crate::integer::Integer::from_usize(n)));
                        ControlAction::Continue
                    },
                }
            },
            Combinator::Head => {
                let check: Result<(), EvaluationError> = match data.get_from_top(0) {
                    Some(Value::List(items)) => {
                        if items.len() == 0 {
                            Err(EvaluationError::InsufficientStack { combinator: c })
                        } else {
                            Ok(())
                        }
                    },
                    Some(_) => Err(EvaluationError::TypeMismatch { combinator: c }),
                    None => Err(EvaluationError::InsufficientStack { combinator: c }),
                };
                match check {
                    Err(e) => ControlAction::Error(e),
                    Ok(()) => {
                        let popped = match data.pop() {
                            Some(v) => v,
                            // Unreachable: the checks above proved the operand exists.
                            None => Value::Boolean(false),
                        };
                        match popped {
                            Value::List(mut items) => {
                                proof {
                                    lemma_value_models_index(items@, 0);
                                    assert(items@.remove(0) =~= items@.drop_first());
                                }
                                let first = items.remove(0);
                                data.push(first);
                                ControlAction::Continue
                            },
                            other => {
                                data.push(other);
                                ControlAction::Error(
                                    EvaluationError::TypeMismatch { combinator: c },
                                )
                            },
                        }
                    },
                }
            },
            Combinator::Tail => {
                let check: Result<(), EvaluationError> = match data.get_from_top(0) {
                    Some(Value::List(items)) => {
                        if items.len() == 0 {
                            Err(EvaluationError::InsufficientStack { combinator: c })
                        } else {
                            Ok(())
                        }
                    },
                    Some(_) => Err(EvaluationError::TypeMismatch { combinator: c }),
                    None => Err(EvaluationError::InsufficientStack { combinator: c }),
                };
                match check {
                    Err(e) => ControlAction::Error(e),
                    Ok(()) => {
                        let popped = match data.pop() {
                            Some(v) => v,
                            // Unreachable: the checks above proved the operand exists.
                            None => Value::Boolean(false),
                        };
                        match popped {
                            Value::List(mut items) => {
                                proof {
                                    lemma_value_models_drop_first(items@);
                                    assert(items@.remove(0) =~= items@.drop_first());
                                }
                                let _ = items.remove(0);
                                data.push(Value::List(items));
                                ControlAction::Continue
                            },
                            other => {
                                data.push(other);
                                ControlAction::Error(
                                    EvaluationError::TypeMismatch { combinator: c },
                                )
                            },
                        }
                    },
                }
            },
            Combinator::MapList => higher_order_action(c, data),
            Combinator::Filter => higher_order_action(c, data),
            Combinator::Fold => {
                let size = data.size();
                if size < 3 {
                    return ControlAction::Error(
                        EvaluationError::InsufficientStack { combinator: c },
                    );
                }
                let kinds_ok = match (data.get_from_top(2), data.get_from_top(0)) {
                    (Some(Value::List(_)), Some(Value::Lambda(_))) => true,
                    _ => false,
                };
                if !kinds_ok {
                    return ControlAction::Error(
                        EvaluationError::TypeMismatch { combinator: c },
                    );
                }
                let lambda_value = match data.pop() {
                    Some(v) => v,
                    // Unreachable: the checks above proved the operand exists.
                    None => Value::Boolean(false),
                };
                let accumulator = match data.pop() {
                    Some(v) => v,
                    // Unreachable: the checks above proved the operand exists.
                    None => Value::Boolean(false),
                };
                let list_value = match data.pop() {
                    Some(v) => v,
                    // Unreachable: the checks above proved the operand exists.
                    None => Value::Boolean(false),
                };
                match (lambda_value, list_value) {
                    (Value::Lambda(lambda), Value::List(items)) => {
                        data.push(accumulator);
                        let frame = ControlFrame::FoldFrame { lambda, remaining: items };
                        let mut frames: Vec<ControlFrame> = Vec::new();
                        frames.push(frame);
                        proof {
                            assert(frames@.drop_first() =~= Seq::<ControlFrame>::empty());
                            assert(frame_models(Seq::<ControlFrame>::empty())
                                =~= Seq::<FrameModel>::empty());
                            assert(frames@[0] == frame);
                            assert(frame_models(frames@) =~= seq![frame_model(frame)]);
                        }
                        ControlAction::Push(frames)
                    },
                    (x, y) => {
                        data.push(y);
                        data.push(accumulator);
                        data.push(x);
                        ControlAction::Error(EvaluationError::TypeMismatch { combinator: c })
                    },
                }
            },
        }
    }
}

/// `map` and `filter`: pops a lambda and a list and pushes the matching
/// higher-order frame.
fn higher_order_action(c: Combinator, data: &mut DataStack) -> (r: ControlAction)
    requires
        c == Combinator::MapList || c == Combinator::Filter,
    ensures
        action_models_effect(
            combinator_effect(c, old(data).model()),
            old(data).model(),
            final(data).model(),
            r,
        ),
{
    let size = data.size();
    if size < 2 {
        return ControlAction::Error(EvaluationError::InsufficientStack { combinator: c });
    }
    let kinds_ok = match (data.get_from_top(1), data.get_from_top(0)) {
        (Some(Value::List(_)), Some(Value::Lambda(_))) => true,
        _ => false,
    };
    if !kinds_ok {
        return ControlAction::Error(EvaluationError::TypeMismatch { combinator: c });
    }
    let lambda_value = match data.pop() {
        Some(v) => v,
        // Unreachable: the checks above proved the operand exists.
        None => Value::Boolean(false),
    };
    let list_value = match data.pop() {
        Some(v) => v,
        // Unreachable: the checks above proved the operand exists.
        None => Value::Boolean(false),
    };
    match (lambda_value, list_value) {
        (Value::Lambda(lambda), Value::List(items)) => {
            let frame = if c == Combinator::MapList {
                ControlFrame::MapFrame {
                    lambda,
                    remaining: items,
                    done: Vec::new(),
                    awaiting: false,
                }
            } else {
                ControlFrame::FilterFrame {
                    lambda,
                    remaining: items,
                    done: Vec::new(),
                    current: None,
                }
            };
            let mut frames: Vec<ControlFrame> = Vec::new();
            frames.push(frame);
            proof {
                assert(frames@.drop_first() =~= Seq::<ControlFrame>::empty());
                assert(frame_models(Seq::<ControlFrame>::empty())
                    =~= Seq::<FrameModel>::empty());
                assert(frames@[0] == frame);
                assert(value_models(Seq::<Value>::empty()) =~= Seq::<AbstractValue>::empty());
                assert(frame_models(frames@) =~= seq![frame_model(frame)]);
            }
            ControlAction::Push(frames)
        },
        (x, y) => {
            data.push(y);
            data.push(x);
            ControlAction::Error(EvaluationError::TypeMismatch { combinator: c })
        },
    }
}

/// A fresh copy of a vector of values, with the same abstract contents.
fn duplicate_values(items: &Vec<Value>) -> (r: Vec<Value>)
    ensures
        value_models(r@) =~= value_models(items@),
{
    let mut copied: Vec<Value> = Vec::new();
    let mut j: usize = 0;
    while j < items.len()
        invariant
            0 <= j <= items.len(),
            copied@.len() == j,
            forall|k: int| 0 <= k < j ==> value_model(#[trigger] copied@[k]) == value_model(
                items@[k],
            ),
        decreases items.len() - j,
    {
        let c = items[j].duplicate();
        copied.push(c);
        j += 1;
    }
    proof {
        lemma_value_models_len(copied@);
        lemma_value_models_len(items@);
        assert forall|k: int| 0 <= k < items@.len() implies value_models(copied@)[k]
            == value_models(items@)[k] by {
            lemma_value_models_index(copied@, k);
            lemma_value_models_index(items@, k);
        }
    }
    copied
}

impl ControlFrame {
    /// Runs one step of this frame: reads its next term (or advances its
    /// higher-order state), acts on the data stack, and says how the control
    /// stack should change. The step performed is exactly
    /// [`frame_step`] of the frame's model.
    pub fn run_step(&mut self, data: &mut DataStack, storage: &FunctionStorage) -> (r:
        ControlAction)
        requires
            storage.valid(),
            valid_frame(frame_model(*old(self)), storage.bodies()),
        ensures
            frame_step(storage.bodies(), frame_model(*old(self)), old(data).model())
                matches FrameStepModel::Pop { data: d } ==> (r is Pop && final(data).model()
                == d),
            frame_step(storage.bodies(), frame_model(*old(self)), old(data).model())
                matches FrameStepModel::Continue { frame: fm, data: d } ==> (r is Continue
                && frame_model(*final(self)) == fm && final(data).model() == d),
            frame_step(storage.bodies(), frame_model(*old(self)), old(data).model())
                matches FrameStepModel::Push { frame: fm, data: d, pushed } ==> (r matches
                ControlAction::Push(fs) && frame_model(*final(self)) == fm
                && final(data).model() == d && frame_models(fs@) == pushed),
            frame_step(storage.bodies(), frame_model(*old(self)), old(data).model())
                matches FrameStepModel::Failed { error } ==> (r == ControlAction::Error(error)
                && final(data).model() == old(data).model()),
    {
        match self {
            ControlFrame::Body { function, cursor } => {
                let f = *function;
                proof {
                    storage.lemma_bodies_len();
                }
                let len = storage.body_length(f);
                if *cursor >= len {
                    return ControlAction::Pop;
                }
                let current = *cursor;
                *cursor = current + 1;
                let term = storage.term_at(f, current);
                match term {
                    Term::Data(v) => {
                        let value = v.duplicate();
                        data.push(value);
                        ControlAction::Continue
                    },
                    Term::Application(fr) => {
                        let mut fs: Vec<ControlFrame> = Vec::new();
                        fs.push(ControlFrame::Body { function: fr.function_index(), cursor: 0 });
                        proof {
                            assert(fs@.drop_first() =~= Seq::<ControlFrame>::empty());
                            assert(frame_models(Seq::<ControlFrame>::empty())
                                =~= Seq::<FrameModel>::empty());
                            assert(frame_models(fs@) =~= seq![frame_model(fs@[0])]);
                        }
                        ControlAction::Push(fs)
                    },
                    Term::Recursion => {
                        let mut fs: Vec<ControlFrame> = Vec::new();
                        fs.push(ControlFrame::Body { function: f, cursor: 0 });
                        proof {
                            assert(fs@.drop_first() =~= Seq::<ControlFrame>::empty());
                            assert(frame_models(Seq::<ControlFrame>::empty())
                                =~= Seq::<FrameModel>::empty());
                            assert(frame_models(fs@) =~= seq![frame_model(fs@[0])]);
                        }
                        ControlAction::Push(fs)
                    },
                    Term::Combinator(comb) => {
                        let cc = *comb;
                        cc.evaluate(data)
                    },
                }
            },
            ControlFrame::Restore { value } => {
                let v = value.duplicate();
                data.push(v);
                ControlAction::Pop
            },
            ControlFrame::MapFrame { lambda, remaining, done, awaiting } => {
                proof {
                    lemma_value_models_len(remaining@);
                }
                if *awaiting {
                    match data.pop() {
                        None => ControlAction::Error(
                            EvaluationError::InsufficientStack { combinator: Combinator::MapList },
                        ),
                        Some(v) => {
                            proof {
                                lemma_value_models_push(done@, v);
                            }
                            done.push(v);
                            *awaiting = false;
                            ControlAction::Continue
                        },
                    }
                } else if remaining.len() > 0 {
                    proof {
                        lemma_value_models_index(remaining@, 0);
                        lemma_value_models_drop_first(remaining@);
                        assert(remaining@.remove(0) =~= remaining@.drop_first());
                    }
                    let element = remaining.remove(0);
                    *awaiting = true;
                    let frames = frames_for_lambda(lambda);
                    data.push(element);
                    ControlAction::Push(frames)
                } else {
                    let collected = duplicate_values(done);
                    data.push(Value::List(collected));
                    ControlAction::Pop
                }
            },
            ControlFrame::FilterFrame { lambda, remaining, done, current } => {
                proof {
                    lemma_value_models_len(remaining@);
                }
                if current.is_some() {
                    match data.pop() {
                        None => ControlAction::Error(
                            EvaluationError::InsufficientStack { combinator: Combinator::Filter },
                        ),
                        Some(v) => match v {
                            Value::Boolean(b) => {
                                if b {
                                    let candidate = match current {
                                        Some(cand) => cand.duplicate(),
                                        // Unreachable: the checks above proved the operand exists.
                                        None => Value::Boolean(false),
                                    };
                                    proof {
                                        lemma_value_models_push(done@, candidate);
                                    }
                                    done.push(candidate);
                                }
                                *current = None;
                                ControlAction::Continue
                            },
                            other => {
                                data.push(other);
                                proof {
                                    assert(data.model() =~= old(data).model());
                                }
                                ControlAction::Error(
                                    EvaluationError::TypeMismatch { combinator: Combinator::Filter },
                                )
                            },
                        },
                    }
                } else if remaining.len() > 0 {
                    proof {
                        lemma_value_models_index(remaining@, 0);
                        lemma_value_models_drop_first(remaining@);
                        assert(remaining@.remove(0) =~= remaining@.drop_first());
                    }
                    let element = remaining.remove(0);
                    let pushed_copy = element.duplicate();
                    *current = Some(element);
                    let frames = frames_for_lambda(lambda);
                    data.push(pushed_copy);
                    ControlAction::Push(frames)
                } else {
                    let collected = duplicate_values(done);
                    data.push(Value::List(collected));
                    ControlAction::Pop
                }
            },
            ControlFrame::FoldFrame { lambda, remaining } => {
                proof {
                    lemma_value_models_len(remaining@);
                }
                if remaining.len() > 0 {
                    proof {
                        lemma_value_models_index(remaining@, 0);
                        lemma_value_models_drop_first(remaining@);
                        assert(remaining@.remove(0) =~= remaining@.drop_first());
                    }
                    let element = remaining.remove(0);
                    let frames = frames_for_lambda(lambda);
                    data.push(element);
                    ControlAction::Push(frames)
                } else {
                    ControlAction::Pop
                }
            },
        }
    }
}

/// The result of running the machine under a step budget.
#[derive(Clone, Copy, Debug, PartialEq, Eq, Structural)]
pub enum EvaluationOutcome {
    /// The control stack emptied: evaluation succeeded.
    Completed,
    /// Evaluation halted on an error.
    Halted { error: EvaluationError },
    /// The step budget ran out before evaluation finished.
    Exhausted,
}

/// Runs the machine from the given control stack for at most `fuel` steps:
/// exactly [`machine_run`] of the starting state.
#[verifier::loop_isolation(false)]
#[verifier::rlimit(60)]
fn run_machine(
    storage: &FunctionStorage,
    control: &mut ControlStack,
    data: &mut DataStack,
    fuel: u64,
) -> (r: EvaluationOutcome)
    requires
        storage.valid(),
        valid_frames(old(control).model(), storage.bodies()),
        old(data).valid(storage.bodies().len() as nat),
    ensures
        final(data).valid(storage.bodies().len() as nat),
        machine_run(storage.bodies(), old(control).model(), old(data).model(), fuel as nat)
            matches StepModel::Finished { data: d } ==> (r == EvaluationOutcome::Completed
            && final(data).model() == d),
        machine_run(storage.bodies(), old(control).model(), old(data).model(), fuel as nat)
            matches StepModel::Failed { error, data: d } ==> (r == (EvaluationOutcome::Halted {
            error,
        }) && final(data).model() == d),
        machine_run(storage.bodies(), old(control).model(), old(data).model(), fuel as nat)
            matches StepModel::Continue { frames, data: d } ==> (r
            == EvaluationOutcome::Exhausted && final(data).model() == d),
{
    let ghost bodies = storage.bodies();
    let ghost init_frames = old(control).model();
    let ghost init_data = old(data).model();
    proof {
        storage.lemma_bodies_len();
        assert(valid_bodies(bodies)) by {
            assert forall|i: int| 0 <= i < bodies.len() implies crate::term::valid_term_models(
                #[trigger] bodies[i],
                bodies.len() as nat,
            ) by {
                assert(crate::term::valid_term_models(bodies[i], storage.body_count()));
            }
        }
    }
    let mut remaining: u64 = fuel;
    while remaining > 0
        invariant
            valid_frames(control.model(), bodies),
            data.valid(bodies.len() as nat),
            remaining <= fuel,
            machine_run(bodies, init_frames, init_data, fuel as nat) == machine_run(
                bodies,
                control.model(),
                data.model(),
                remaining as nat,
            ),
        decreases remaining,
    {
        let ghost frames_now = control.model();
        let ghost data_now = data.model();
        let popped = control.pop_frame();
        match popped {
            None => {
                return EvaluationOutcome::Completed;
            },
            Some(mut frame) => {
                proof {
                    assert(frames_now[frames_now.len() - 1] == frame_model(frame));
                    assert(valid_frame(frame_model(frame), bodies));
                    lemma_frame_step_valid(bodies, frame_model(frame), data_now);
                }
                let action = frame.run_step(data, storage);
                match action {
                    ControlAction::Error(e) => {
                        proof {
                            assert(machine_step(bodies, frames_now, data_now)
                                == (StepModel::Failed { error: e, data: data_now }));
                            assert(machine_run(bodies, frames_now, data_now, remaining as nat)
                                == (StepModel::Failed { error: e, data: data.model() }));
                        }
                        return EvaluationOutcome::Halted { error: e };
                    },
                    ControlAction::Continue => {
                        control.push_frame(frame);
                        proof {
                            assert forall|i: int| 0 <= i < control.model().len() implies
                                valid_frame(#[trigger] control.model()[i], bodies) by {
                                if i < frames_now.len() - 1 {
                                    assert(control.model()[i] == frames_now[i]);
                                }
                            }
                        }
                    },
                    ControlAction::Pop => {
                        proof {
                            assert forall|i: int| 0 <= i < control.model().len() implies
                                valid_frame(#[trigger] control.model()[i], bodies) by {
                                assert(control.model()[i] == frames_now[i]);
                            }
                        }
                    },
                    ControlAction::Push(fs) => {
                        let ghost pushed_models = frame_models(fs@);
                        control.push_frame(frame);
                        control.push_frames(fs);
                        proof {
                            assert forall|i: int| 0 <= i < control.model().len() implies
                                valid_frame(#[trigger] control.model()[i], bodies) by {
                                if i < frames_now.len() - 1 {
                                    assert(control.model()[i] == frames_now[i]);
                                } else if i >= frames_now.len() {
                                    assert(control.model()[i] == pushed_models[i
                                        - frames_now.len()]);
                                }
                            }
                        }
                    },
                }
                proof {
                    assert(machine_step(bodies, frames_now, data_now) == (StepModel::Continue {
                        frames: control.model(),
                        data: data.model(),
                    }));
                    assert(machine_run(bodies, frames_now, data_now, remaining as nat)
                        == machine_run(
                        bodies,
                        control.model(),
                        data.model(),
                        (remaining - 1) as nat,
                    ));
                }
                remaining = remaining - 1;
            },
        }
    }
    if control.is_empty() {
        EvaluationOutcome::Completed
    } else {
        EvaluationOutcome::Exhausted
    }
}

/// A virtual machine: a data stack that stored functions are evaluated
/// against.
pub struct VirtualMachine {
    data: DataStack,
}

impl VirtualMachine {
    /// The abstract contents of the data stack, bottom first.
    pub closed spec fn model(self) -> Seq<AbstractValue> {
        self.data.model()
    }

    /// Whether every lambda reference on the data stack points below `n`.
    pub open spec fn valid(self, n: nat) -> bool {
        crate::value::valid_abstract_values(self.model(), n)
    }

    /// Creates a machine with an empty data stack.
    pub fn new() -> (r: VirtualMachine)
        ensures
            r.model() =~= Seq::<AbstractValue>::empty(),
    {
        VirtualMachine { data: DataStack::new() }
    }

    /// A borrow of the data stack.
    pub fn data(&self) -> (r: &DataStack)
        ensures
            r.model() == self.model(),
    {
        &self.data
    }

    /// Adds copies of the given values to the data stack, bottom first.
    pub fn with_data(self, values: &Vec<Value>) -> (r: VirtualMachine)
        ensures
            r.model() =~= self.model() + value_models(values@),
    {
        let mut machine = self;
        let ghost initial = machine.data.model();
        let mut j: usize = 0;
        proof {
            lemma_value_models_len(values@);
            assert(value_models(values@.subrange(0, 0)) =~= Seq::<AbstractValue>::empty());
        }
        while j < values.len()
            invariant
                0 <= j <= values@.len(),
                machine.data.model() =~= initial + value_models(values@.subrange(0, j as int)),
            decreases values@.len() - j,
        {
            let copy = values[j].duplicate();
            machine.data.push(copy);
            proof {
                assert(values@.subrange(0, j + 1) =~= values@.subrange(0, j as int).push(
                    values@[j as int],
                ));
                crate::value::lemma_value_models_push(
                    values@.subrange(0, j as int),
                    values@[j as int],
                );
            }
            j += 1;
        }
        proof {
            assert(values@.subrange(0, values@.len() as int) =~= values@);
        }
        machine
    }

    /// Evaluates the stored function a reference names against this
    /// machine's data stack, spending at most `fuel` machine steps.
    ///
    /// The result is exactly [`machine_run`] from a single frame for that
    /// function: success once the control stack empties, the first error
    /// otherwise, and an exhausted budget when neither is reached in time.
    /// On an error the data stack is as the last completed step left it.
    pub fn evaluate(
        &mut self,
        storage: &FunctionStorage,
        reference: &FunctionReference,
        fuel: u64,
    ) -> (r: EvaluationOutcome)
        requires
            storage.valid(),
            reference.index() < storage.bodies().len(),
            old(self).valid(storage.bodies().len() as nat),
        ensures
            final(self).valid(storage.bodies().len() as nat),
            machine_run(
                storage.bodies(),
                seq![FrameModel::Body { function: reference.index(), cursor: 0 as nat }],
                old(self).model(),
                fuel as nat,
            ) matches StepModel::Finished { data: d } ==> (r == EvaluationOutcome::Completed
                && final(self).model() == d),
            machine_run(
                storage.bodies(),
                seq![FrameModel::Body { function: reference.index(), cursor: 0 as nat }],
                old(self).model(),
                fuel as nat,
            ) matches StepModel::Failed { error, data: d } ==> (r == (
            EvaluationOutcome::Halted { error }) && final(self).model() == d),
            machine_run(
                storage.bodies(),
                seq![FrameModel::Body { function: reference.index(), cursor: 0 as nat }],
                old(self).model(),
                fuel as nat,
            ) matches StepModel::Continue { frames, data: d } ==> (r
                == EvaluationOutcome::Exhausted && final(self).model() == d),
    {
        let mut control = ControlStack::new();
        control.push_frame(ControlFrame::from_function(reference));
        proof {
            assert(control.model() =~= seq![
                FrameModel::Body { function: reference.index(), cursor: 0 as nat },
            ]);
            assert forall|i: int| 0 <= i < control.model().len() implies valid_frame(
                #[trigger] control.model()[i],
                storage.bodies(),
            ) by {
                assert(control.model()[i] == (FrameModel::Body {
                    function: reference.index(),
                    cursor: 0 as nat,
                }));
            }
        }
        run_machine(storage, &mut control, &mut self.data, fuel)
    }

    /// Evaluates a lambda value (a composed list of stored bodies, run in
    /// order) against this machine's data stack, spending at most `fuel`
    /// machine steps.
    pub fn evaluate_lambda(
        &mut self,
        storage: &FunctionStorage,
        lambda: &LambdaReference,
        fuel: u64,
    ) -> (r: EvaluationOutcome)
        requires
            storage.valid(),
            crate::value::valid_references(lambda.model(), storage.bodies().len() as nat),
            old(self).valid(storage.bodies().len() as nat),
        ensures
            final(self).valid(storage.bodies().len() as nat),
            machine_run(storage.bodies(), frames_for(lambda.model()), old(self).model(), fuel as nat)
                matches StepModel::Finished { data: d } ==> (r == EvaluationOutcome::Completed
                && final(self).model() == d),
            machine_run(storage.bodies(), frames_for(lambda.model()), old(self).model(), fuel as nat)
                matches StepModel::Failed { error, data: d } ==> (r == (
            EvaluationOutcome::Halted { error }) && final(self).model() == d),
            machine_run(storage.bodies(), frames_for(lambda.model()), old(self).model(), fuel as nat)
                matches StepModel::Continue { frames, data: d } ==> (r
                == EvaluationOutcome::Exhausted && final(self).model() == d),
    {
        let mut control = ControlStack::new();
        let frames = frames_for_lambda(lambda);
        control.push_frames(frames);
        proof {
            assert(control.model() =~= frames_for(lambda.model()));
            lemma_frames_for_valid(lambda.model(), storage.bodies());
        }
        run_machine(storage, &mut control, &mut self.data, fuel)
    }
}

} // verus!
