//! A composition stage that may be absent.
//!
//! Binding an absent stage hands the next stage through untouched; binding
//! a present one pairs its layer with the next stage.  `when` builds the
//! stage from a predicate, constructing the layer only when it is wanted.

use vstd::prelude::*;

verus! {

/// Either the next stage alone, or a layer bound over it.
pub enum Either<A, B> {
    A(A),
    B(B),
}

/// A layer that may be configured off.
pub struct Optional<L> {
    inner: Option<L>,
}

impl<L> Optional<L> {
    /// The layer, if the stage is present.
    pub closed spec fn inner_of(self) -> Option<L> {
        self.inner
    }

    /// A present stage.
    pub fn some(layer: L) -> (r: Self)
        ensures
            r.inner_of() == Some(layer),
    {
        Optional { inner: Some(layer) }
    }

    /// An absent stage.
    pub fn none() -> (r: Self)
        ensures
            r.inner_of() is None,
    {
        Optional { inner: None }
    }

    /// Builds the layer only when the predicate asks for it.
    pub fn when<F: FnOnce() -> L>(predicate: bool, mk: F) -> (r: Self)
        requires
            predicate ==> mk.requires(()),
        ensures
            !predicate ==> r.inner_of() is None,
            predicate ==> r.inner_of() is Some && mk.ensures((), r.inner_of().unwrap()),
    {
        if predicate {
            Self::some(mk())
        } else {
            Self::none()
        }
    }

    /// Binds the stage over the next one: absent hands the next stage
    /// through; present pairs the layer with it.
    pub fn bind<N>(self, next: N) -> (r: Either<N, (L, N)>)
        ensures
            match self.inner_of() {
                None => (r matches Either::A(n) && n == next),
                Some(l) => (r matches Either::B(p) && p == (l, next)),
            },
    {
        match self.inner {
            None => Either::A(next),
            Some(m) => Either::B((m, next)),
        }
    }
}

impl<L> From<Option<L>> for Optional<L> {
    fn from(inner: Option<L>) -> (r: Self) {
        Optional { inner }
    }
}

impl<L> vstd::std_specs::convert::FromSpecImpl<Option<L>> for Optional<L> {
    open spec fn obeys_from_spec() -> bool {
        true
    }

    closed spec fn from_spec(inner: Option<L>) -> Self {
        Optional { inner }
    }
}

} // verus!
