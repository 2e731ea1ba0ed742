//! The resolution-and-evaluation core of a small concatenative language.
//!
//! Source text is parsed elsewhere into sequences of unresolved terms; this
//! crate resolves those against a [`namespace::Namespace`] into flat,
//! index-addressed term sequences held in a [`storage::FunctionStorage`]
//! arena, and evaluates them against a [`stack::DataStack`] with an explicit
//! control stack of frames.

pub mod combinator;
pub mod integer;
pub mod machine;
pub mod namespace;
pub mod stack;
pub mod storage;
pub mod syntax;
pub mod term;
pub mod value;
pub mod vm;

use vstd::prelude::*;

verus! {

} // verus!
