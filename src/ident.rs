use vstd::prelude::*;

verus! {

/// A source location, kept as an opaque pair of offsets.
#[derive(Clone, Copy, Debug, PartialEq, Eq, Structural)]
pub struct Span {
    pub start: usize,
    pub end: usize,
}

/// An identifier: its interned name and where it was written.
/// Two identifiers name the same thing when their `name`s are equal.
#[derive(Clone, Copy, Debug, PartialEq, Eq, Structural)]
pub struct Ident {
    pub name: u64,
    pub span: Span,
}

/// The names of a path, without their locations.
pub open spec fn names(p: Seq<Ident>) -> Seq<u64> {
    p.map_values(|i: Ident| i.name)
}

} // verus!
