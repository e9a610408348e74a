use vstd::prelude::*;

verus! {

/// Where a name was found: owned by the module it was looked up in, or
/// reached through an import.
#[derive(Clone, Copy, Debug, PartialEq, Eq, Structural)]
pub enum Origin<T> {
    Local(T),
    Import(T),
}

impl<T> Origin<T> {
    /// The payload, whichever the origin.
    pub open spec fn inner(self) -> T {
        match self {
            Origin::Local(t) => t,
            Origin::Import(t) => t,
        }
    }

    pub fn unwrap_ref(&self) -> (r: &T)
        ensures
            *r == self.inner(),
    {
        match self {
            Origin::Local(t) => t,
            Origin::Import(t) => t,
        }
    }
}

impl<T: Copy> Origin<T> {
    pub fn unwrap(&self) -> (r: T)
        ensures
            r == self.inner(),
    {
        match self {
            Origin::Local(t) => *t,
            Origin::Import(t) => *t,
        }
    }
}

} // verus!
