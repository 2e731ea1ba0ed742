//! The fixed vocabulary of built-in stack operations.

use vstd::prelude::*;

verus! {

/// A built-in combinator: a fixed-arity operation on the data stack (and,
/// for the functional and higher-order list combinators, on the control
/// stack).
#[derive(Clone, Copy, Debug, PartialEq, Eq, Structural)]
pub enum Combinator {
    /// `+`: pops two integers, pushes their sum.
    Add,
    /// `/`: pops two integers, pushes the truncated quotient.
    Divide,
    /// `%`: pops two integers, pushes the remainder (dividend's sign).
    Modulo,
    /// `*`: pops two integers, pushes their product.
    Multiply,
    /// `-`: pops two integers, pushes their difference.
    Subtract,
    /// `&`: pops two booleans, pushes their conjunction.
    And,
    /// `^`: pops two booleans, pushes their exclusive disjunction.
    ExclusiveOr,
    /// `!`: pops one boolean, pushes its negation.
    Not,
    /// `|`: pops two booleans, pushes their disjunction.
    Or,
    /// `=`: pops two values, pushes whether they are structurally equal.
    Equality,
    /// `>`: pops two integers, pushes whether the lower is greater.
    GreaterThan,
    /// `<`: pops two integers, pushes whether the lower is smaller.
    LessThan,
    /// `apply`: pops a lambda and runs it.
    Apply,
    /// `compose`: pops two lambdas, pushes their composition.
    Compose,
    /// `if`: pops a false-branch lambda, a true-branch lambda and a boolean,
    /// then runs the selected branch.
    If,
    /// `under`: pops a lambda and the value beneath it, runs the lambda, and
    /// restores the saved value on top afterwards.
    Under,
    /// `append`: pops a value and the list beneath it, pushes the list with
    /// that value appended at its end.
    Append,
    /// `count`: pops a list, pushes its length as an integer.
    Count,
    /// `filter`: pops a predicate lambda and a list, keeps the elements on
    /// which the predicate yields true.
    Filter,
    /// `fold`: pops a lambda; beneath it an accumulator, and beneath that a
    /// list; folds the list into the accumulator with the lambda.
    Fold,
    /// `head`: pops a list, pushes its first element.
    Head,
    /// `join`: pops two lists, pushes their concatenation.
    Join,
    /// `map`: pops a lambda and a list, pushes the list of the lambda's
    /// results, in order.
    MapList,
    /// `tail`: pops a list, pushes it without its first element.
    Tail,
    /// `copy`: duplicates the value on top of the stack.
    Duplicate,
    /// `drop`: removes the value on top of the stack.
    Discard,
    /// `hop`: duplicates the second value from the top onto the top.
    Hop,
    /// `pick`: pops an integer index and duplicates the value found that far
    /// below the top, wrapping the index into the stack's size.
    Pick,
    /// `rotate`: moves the top value below the next two.
    Rotate,
    /// `swap`: exchanges the two top values.
    Swap,
}

/// The surface token of each combinator.
pub open spec fn combinator_token(c: Combinator) -> Seq<char> {
    match c {
        Combinator::Add => "+"@,
        Combinator::Divide => "/"@,
        Combinator::Modulo => "%"@,
        Combinator::Multiply => "*"@,
        Combinator::Subtract => "-"@,
        Combinator::And => "&"@,
        Combinator::ExclusiveOr => "^"@,
        Combinator::Not => "!"@,
        Combinator::Or => "|"@,
        Combinator::Equality => "="@,
        Combinator::GreaterThan => ">"@,
        Combinator::LessThan => "<"@,
        Combinator::Apply => "apply"@,
        Combinator::Compose => "compose"@,
        Combinator::If => "if"@,
        Combinator::Under => "under"@,
        Combinator::Append => "append"@,
        Combinator::Count => "count"@,
        Combinator::Filter => "filter"@,
        Combinator::Fold => "fold"@,
        Combinator::Head => "head"@,
        Combinator::Join => "join"@,
        Combinator::MapList => "map"@,
        Combinator::Tail => "tail"@,
        Combinator::Duplicate => "copy"@,
        Combinator::Discard => "drop"@,
        Combinator::Hop => "hop"@,
        Combinator::Pick => "pick"@,
        Combinator::Rotate => "rotate"@,
        Combinator::Swap => "swap"@,
    }
}

impl Combinator {
    /// The name of this combinator as it appears in source text.
    pub fn name(&self) -> (r: &'static str)
        ensures
            r@ == combinator_token(*self),
    {
        match self {
            Combinator::Add => "+",
            Combinator::Divide => "/",
            Combinator::Modulo => "%",
            Combinator::Multiply => "*",
            Combinator::Subtract => "-",
            Combinator::And => "&",
            Combinator::ExclusiveOr => "^",
            Combinator::Not => "!",
            Combinator::Or => "|",
            Combinator::Equality => "=",
            Combinator::GreaterThan => ">",
            Combinator::LessThan => "<",
            Combinator::Apply => "apply",
            Combinator::Compose => "compose",
            Combinator::If => "if",
            Combinator::Under => "under",
            Combinator::Append => "append",
            Combinator::Count => "count",
            Combinator::Filter => "filter",
            Combinator::Fold => "fold",
            Combinator::Head => "head",
            Combinator::Join => "join",
            Combinator::MapList => "map",
            Combinator::Tail => "tail",
            Combinator::Duplicate => "copy",
            Combinator::Discard => "drop",
            Combinator::Hop => "hop",
            Combinator::Pick => "pick",
            Combinator::Rotate => "rotate",
            Combinator::Swap => "swap",
        }
    }
}

/// An evaluation-time failure; evaluation halts immediately when one is
/// produced.
#[derive(Clone, Copy, Debug, PartialEq, Eq, Structural)]
pub enum EvaluationError {
    /// The named operation needed more items than the data stack held.
    InsufficientStack { combinator: Combinator },
    /// The named operation received a value of the wrong kind (for division
    /// and remainder, this includes a zero divisor).
    TypeMismatch { combinator: Combinator },
}

impl EvaluationError {
    /// The combinator that failed.
    pub fn combinator(&self) -> (r: Combinator)
        ensures
            (*self matches EvaluationError::InsufficientStack { combinator } ==> r == combinator),
            (*self matches EvaluationError::TypeMismatch { combinator } ==> r == combinator),
    {
        match self {
            EvaluationError::InsufficientStack { combinator } => *combinator,
            EvaluationError::TypeMismatch { combinator } => *combinator,
        }
    }
}

} // verus!
