//! A composition stage whose made services remember their target, so that
//! later stages can recover it from each request they handle.  The
//! surrounding framework delegates each call to the wrapped service after
//! attaching the target to the request.

use vstd::prelude::*;

verus! {

/// The stage itself; carries no state of its own.
#[derive(Clone)]
pub struct Layer {
}

/// Wraps the next make-stage.
#[derive(Clone)]
pub struct Make<M> {
    next: M,
}

/// A made service bound to its target.
#[derive(Clone)]
pub struct Service<T, S> {
    target: T,
    inner: S,
}

impl Layer {
    pub fn new() -> (l: Layer) {
        Layer {  }
    }

    /// Binds the stage over the next make-stage.
    pub fn bind<M>(&self, next: M) -> (m: Make<M>)
        ensures
            m.next_of() == next,
    {
        Make { next }
    }
}

impl<M> Make<M> {
    /// The wrapped make-stage.
    pub closed spec fn next_of(self) -> M {
        self.next
    }

    /// Pairs a service made for a target with that target.
    pub fn make<T, S>(&self, target: T, inner: S) -> (s: Service<T, S>)
        ensures
            s.target_of() == target,
            s.inner_of() == inner,
    {
        Service { target, inner }
    }
}

impl<T, S> Service<T, S> {
    /// The target this service attaches to each request it forwards.
    pub closed spec fn target_of(self) -> T {
        self.target
    }

    /// The wrapped service.
    pub closed spec fn inner_of(self) -> S {
        self.inner
    }

    /// The target, for attachment to a request in flight.
    pub fn target(&self) -> (t: &T)
        ensures
            *t == self.target_of(),
    {
        &self.target
    }
}

} // verus!
