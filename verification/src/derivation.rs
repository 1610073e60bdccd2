//! User-supplied derivations.
//!
//! A memo is driven by a derivation: a stateful computation that receives the
//! current value of its tracked source together with its own previous output
//! (`None` on the first run) and produces the next derived value.  The trait
//! plays the role of a `FnMut(Option<T>) -> T` closure: an implementor may
//! carry mutable state across invocations, and the two spec functions name
//! exactly what one invocation returns and how it changes that state.

use vstd::prelude::*;

verus! {

/// A derived computation fed with its tracked source's value and its own
/// previous output.
pub trait Derivation<T>: Sized {
    /// The value one invocation returns, given the source's current value and
    /// the previous output.
    spec fn result(&self, input: T, prev: Option<T>) -> T;

    /// The derivation's own state after that invocation.
    spec fn next_state(&self, input: T, prev: Option<T>) -> Self;

    /// Runs the derivation once.
    fn derive(&mut self, input: &T, prev: Option<T>) -> (r: T)
        ensures
            r == old(self).result(*input, prev),
            *final(self) == old(self).next_state(*input, prev),
    ;
}

} // verus!
