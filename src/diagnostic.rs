use crate::location::Span;
use vstd::prelude::*;

verus! {

/// The kinds of error that checking reports.
#[derive(Clone, Copy, Debug, PartialEq, Eq, Structural)]
pub enum ErrorKind {
    /// A mismatch between a declared type and the type of a value.
    E0000,
}

impl ErrorKind {
    /// The message that goes with the kind.
    pub fn message(&self) -> (r: &'static str)
        ensures
            r@ == "unknown error"@,
    {
        match self {
            ErrorKind::E0000 => "unknown error",
        }
    }
}

/// An error event: what went wrong, and where.
#[derive(Clone, Copy, Debug, PartialEq, Eq, Structural)]
pub struct Diagnostic {
    pub span: Span,
    pub kind: ErrorKind,
}

} // verus!
