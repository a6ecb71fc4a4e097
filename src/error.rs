//! What can go wrong while building a pattern set, selecting groups or converting a match.
use vstd::prelude::*;

verus! {

/// Errors of the library. Only `PatternCompilation` and `GroupNotFound` stop a run; the
/// two conversion errors drop a single match and scanning goes on.
#[derive(Debug, PartialEq, Eq)]
pub enum CompmodeError {
    /// A pattern's source text is not a valid regular expression.
    PatternCompilation { pattern: String },
    /// A match succeeded but a required named group took no part in it.
    MissingCapture { group: String, pattern: String },
    /// A line or column group matched text that is not a base-10 `usize`.
    MalformedNumber { group: String, pattern: String },
    /// No pattern group has the requested name.
    GroupNotFound { group: String },
}

/// The mathematical value of a `CompmodeError`.
pub enum ErrorView {
    PatternCompilation { pattern: Seq<char> },
    MissingCapture { group: Seq<char>, pattern: Seq<char> },
    MalformedNumber { group: Seq<char>, pattern: Seq<char> },
    GroupNotFound { group: Seq<char> },
}

impl View for CompmodeError {
    type V = ErrorView;

    open spec fn view(&self) -> ErrorView {
        match self {
            CompmodeError::PatternCompilation { pattern } => ErrorView::PatternCompilation {
                pattern: pattern@,
            },
            CompmodeError::MissingCapture { group, pattern } => ErrorView::MissingCapture {
                group: group@,
                pattern: pattern@,
            },
            CompmodeError::MalformedNumber { group, pattern } => ErrorView::MalformedNumber {
                group: group@,
                pattern: pattern@,
            },
            CompmodeError::GroupNotFound { group } => ErrorView::GroupNotFound { group: group@ },
        }
    }
}

} // verus!
