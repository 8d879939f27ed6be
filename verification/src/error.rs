//! Errors reported by the compiler front end.
use vstd::prelude::*;

verus! {

/// What went wrong, in the two classes the compiler distinguishes.
#[derive(PartialEq, Eq, Structural, Clone, Copy, Debug)]
pub enum ErrorKind {
    /// The source text is malformed.
    InvalidSource,
    /// The source uses a construct the compiler does not handle.
    UnsupportedFeature,
}

/// A compile error: its class, a human-readable message and, once known,
/// the 1-based source line it was found on.
#[derive(Debug)]
pub struct CompilerError {
    pub kind: ErrorKind,
    pub message: String,
    pub line: Option<usize>,
}

impl CompilerError {
    pub fn invalid_source(message: String) -> (e: CompilerError)
        ensures
            e.kind == ErrorKind::InvalidSource,
            e.message@ == message@,
            e.line is None,
    {
        CompilerError { kind: ErrorKind::InvalidSource, message, line: None }
    }

    pub fn unsupported_feature(message: String) -> (e: CompilerError)
        ensures
            e.kind == ErrorKind::UnsupportedFeature,
            e.message@ == message@,
            e.line is None,
    {
        CompilerError { kind: ErrorKind::UnsupportedFeature, message, line: None }
    }

    /// Attaches a source line, unless the error already carries the more
    /// precise line of an inner construct.
    pub fn with_line(self, line: usize) -> (e: CompilerError)
        ensures
            e.kind == self.kind,
            e.message@ == self.message@,
            e.line == (match self.line {
                Some(l) => Some(l),
                None => Some(line),
            }),
    {
        match self.line {
            Some(_) => self,
            None => CompilerError { kind: self.kind, message: self.message, line: Some(line) },
        }
    }
}

} // verus!
