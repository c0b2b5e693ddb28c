use vstd::prelude::*;

verus! {

/// What can go wrong while a pattern is evaluated against a set of streams.
#[derive(Clone, Copy, Debug, PartialEq, Eq, Structural)]
pub enum IMExError {
    /// A stream reference names an index for which no stream was supplied.
    StreamOutOfRange { index: usize },
}

/// Why a text is not a pattern. Each variant carries the byte offset at
/// which the fault was found.
#[derive(Clone, Copy, Debug, PartialEq, Eq, Structural)]
pub enum PatternError {
    /// The byte at `at` can neither start an expression nor close a group
    /// that is open.
    UnexpectedByte { at: usize },
    /// The group opened at `at` is never closed.
    UnclosedGroup { at: usize },
    /// The brace opened at `at` does not hold a positive decimal count that
    /// fits the machine word, followed by a closing brace.
    MalformedCount { at: usize },
}

} // verus!
