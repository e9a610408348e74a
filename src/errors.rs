use vstd::prelude::*;
use crate::ident::{Ident, Span};

verus! {

/// How severe a diagnostic is.
#[derive(Clone, Copy, Debug, PartialEq, Eq, Structural)]
pub enum ErrKind {
    Error,
}

/// A named type that was referenced but never defined.
#[derive(Clone, Copy, Debug, PartialEq, Eq, Structural)]
pub struct UnresolvedTypeError(pub Ident);

/// What held a name before a second claim on it.
#[derive(Clone, Copy, Debug, PartialEq, Eq, Structural)]
pub enum DefinitionKind {
    Type,
    Import,
}

/// A name claimed twice: `loc` is the rejected claim, `first` the one that stands.
#[derive(Clone, Copy, Debug, PartialEq, Eq, Structural)]
pub struct MultipleDefinitionsError {
    pub loc: Ident,
    pub first: Ident,
    pub kind: DefinitionKind,
}

#[derive(Clone, Copy, Debug, PartialEq, Eq, Structural)]
pub enum AnalyzerError {
    UnresolvedType(UnresolvedTypeError),
    MultipleDefinitions(MultipleDefinitionsError),
}

impl UnresolvedTypeError {
    pub fn kind(&self) -> (r: ErrKind)
        ensures
            r == ErrKind::Error,
    {
        ErrKind::Error
    }

    pub fn description(&self) -> (r: &'static str)
        ensures
            r@ == "Unable to resolve type"@,
    {
        "Unable to resolve type"
    }

    /// Advice shown with the diagnostic.
    pub fn notes(&self) -> (r: (&'static str, &'static str))
        ensures
            r.0@ == "Try defining the type"@,
            r.1@ == "Try importing the type"@,
    {
        ("Try defining the type", "Try importing the type")
    }

    /// Where the unresolved name was written.
    pub fn location(&self) -> (r: Span)
        ensures
            r == self.0.span,
    {
        self.0.span
    }
}

impl MultipleDefinitionsError {
    pub fn kind(&self) -> (r: ErrKind)
        ensures
            r == ErrKind::Error,
    {
        ErrKind::Error
    }

    pub fn location(&self) -> (r: Span)
        ensures
            r == self.loc.span,
    {
        self.loc.span
    }
}

impl AnalyzerError {
    pub fn kind(&self) -> (r: ErrKind)
        ensures
            r == ErrKind::Error,
    {
        ErrKind::Error
    }

    /// The primary location of the diagnostic.
    pub fn location(&self) -> (r: Span)
        ensures
            r == match self {
                AnalyzerError::UnresolvedType(e) => e.0.span,
                AnalyzerError::MultipleDefinitions(e) => e.loc.span,
            },
    {
        match self {
            AnalyzerError::UnresolvedType(e) => e.location(),
            AnalyzerError::MultipleDefinitions(e) => e.location(),
        }
    }
}

/// The sink that diagnostics are collected in, in the order they arise.
#[derive(Debug)]
pub struct ErrorCollector {
    pub errors: Vec<AnalyzerError>,
}

impl ErrorCollector {
    pub fn new() -> (r: ErrorCollector)
        ensures
            r.errors@.len() == 0,
    {
        ErrorCollector { errors: Vec::new() }
    }

    pub fn add_error(&mut self, e: AnalyzerError)
        ensures
            final(self).errors@ == old(self).errors@.push(e),
    {
        self.errors.push(e);
    }
}

} // verus!
