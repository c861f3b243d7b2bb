use vstd::prelude::*;

use crate::span::Span;

verus! {

#[derive(Clone, Copy, PartialEq, Eq, Structural, Debug)]
pub enum Severity {
    Error,
    Warning,
}

/// A message attached to a source span.
#[derive(Debug)]
pub struct Diagnostic {
    pub severity: Severity,
    pub span: Span,
    pub message: String,
}

impl Diagnostic {
    pub fn error(span: Span, message: String) -> (diagnostic: Diagnostic)
        ensures
            diagnostic.severity == Severity::Error,
            diagnostic.span == span,
            diagnostic.message == message,
    {
        Diagnostic { severity: Severity::Error, span, message }
    }
}

} // verus!
