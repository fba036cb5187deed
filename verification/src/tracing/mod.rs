//! The tracing interface the server uses when no tracing backend is attached: spans that
//! record nothing.
pub mod field;

use vstd::prelude::*;

verus! {

/// A span that records nothing.
#[derive(Clone, Copy)]
pub struct Span;

impl Span {
    /// Enters the span; returns it unchanged.
    pub fn entered(self) -> (r: Self)
        ensures
            r == self,
    {
        self
    }

    /// The current span.
    pub fn current() -> (r: Self)
        ensures
            r == Span,
    {
        Span
    }

    /// Records a field value; nothing is kept.
    pub fn record<Q: ?Sized, V>(&self, _field: &Q, _value: V) -> (r: &Self)
        ensures
            *r == *self,
    {
        self
    }
}

/// Attaches a span to a value; without a tracing backend the value is unchanged.
pub trait Instrument: Sized {
    /// Returns the value itself.
    fn instrument(self, _span: Span) -> (r: Self)
        ensures
            r == self,
    {
        self
    }
}

impl<T: Sized> Instrument for T {}

} // verus!
