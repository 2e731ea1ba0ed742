//! Error carriers for an external parser.
//!
//! The textual parser lives outside this crate; it reports malformed source
//! through these plain data types, which only record what went wrong and
//! where.

use vstd::prelude::*;

verus! {

/// The kinds of malformed definition an external parser distinguishes.
#[derive(Clone, Copy, Debug, PartialEq, Eq, Structural)]
pub enum SyntaxErrorVariant {
    /// Expected a colon after the identifier in a definition.
    ExpectedColon,
    /// Expected a top-level definition.
    ExpectedDefinition,
    /// Expected a semicolon at the end of a definition.
    ExpectedSemicolon,
    /// Encountered an invalid term in a function body.
    ExpectedTerm,
}

/// A span of invalid syntax within one source.
#[derive(Clone, Copy, Debug, PartialEq, Eq, Structural)]
pub struct SyntaxError {
    range_start: usize,
    range_end: usize,
    source_index: usize,
    variant: SyntaxErrorVariant,
}

impl SyntaxError {
    /// Creates a new `SyntaxError` for the source with index `source_index`,
    /// covering the half-open character range `range_start..range_end`.
    pub fn new(source_index: usize, variant: SyntaxErrorVariant, range_start: usize, range_end: usize) -> (r:
        SyntaxError)
        ensures
            r.source_index() == source_index,
            r.variant() == variant,
            r.range_start() == range_start,
            r.range_end() == range_end,
    {
        SyntaxError { range_start, range_end, source_index, variant }
    }

    pub closed spec fn source_index(self) -> usize {
        self.source_index
    }

    pub closed spec fn variant(self) -> SyntaxErrorVariant {
        self.variant
    }

    pub closed spec fn range_start(self) -> usize {
        self.range_start
    }

    pub closed spec fn range_end(self) -> usize {
        self.range_end
    }

    /// The start of the invalid range.
    pub fn start(&self) -> (r: usize)
        ensures
            r == self.range_start(),
    {
        self.range_start
    }

    /// The end of the invalid range.
    pub fn end(&self) -> (r: usize)
        ensures
            r == self.range_end(),
    {
        self.range_end
    }

    /// The index of the source the error is in.
    pub fn source(&self) -> (r: usize)
        ensures
            r == self.source_index(),
    {
        self.source_index
    }

    /// What kind of error this is.
    pub fn kind(&self) -> (r: SyntaxErrorVariant)
        ensures
            r == self.variant(),
    {
        self.variant
    }
}

/// An error from parsing one or more syntax sources: the start and end
/// positions (line, column) of each invalid range.
#[derive(Clone, Debug)]
pub struct ParserError {
    invalid_syntax_ranges: Vec<((usize, usize), (usize, usize))>,
}

impl ParserError {
    /// Collects the invalid ranges of a parse.
    pub fn new(invalid_syntax_ranges: Vec<((usize, usize), (usize, usize))>) -> (r: ParserError)
        ensures
            r.ranges() == invalid_syntax_ranges@,
    {
        ParserError { invalid_syntax_ranges }
    }

    pub closed spec fn ranges(self) -> Seq<((usize, usize), (usize, usize))> {
        self.invalid_syntax_ranges@
    }

    /// The recorded invalid ranges.
    pub fn invalid_ranges(&self) -> (r: &Vec<((usize, usize), (usize, usize))>)
        ensures
            r@ == self.ranges(),
    {
        &self.invalid_syntax_ranges
    }
}

} // verus!
