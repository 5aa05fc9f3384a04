//! The interface a sequence source must satisfy, and the ghost model of
//! what such a source will produce.

use vstd::prelude::*;

verus! {

/// One outcome of asking a source for its next element: an element, the
/// end-of-sequence signal, or a failure carrying the source's error value.
///
/// End-of-sequence is not an error; it is a distinct, normal signal. A
/// source is not required to be fused: an `End` may, for an unusual
/// source, be followed by further elements on later pulls.
#[derive(Clone)]
pub enum Pull<T, E> {
    /// The source produced the next element.
    Item(T),
    /// The source signalled that no further element exists right now.
    End,
    /// The source failed; the error is reported verbatim.
    Fail(E),
}

/// What one pull returns, given the sequence of outcomes the source still
/// has in store: the first outcome, or end-of-sequence once the sequence
/// of outcomes has run out.
pub open spec fn next_outcome<T, E>(s: Seq<Pull<T, E>>) -> Result<Option<T>, E> {
    if s.len() == 0 {
        Ok(None)
    } else {
        match s[0] {
            Pull::Item(t) => Ok(Some(t)),
            Pull::End => Ok(None),
            Pull::Fail(e) => Err(e),
        }
    }
}

/// The outcomes a source still has in store after one pull.
pub open spec fn rest_outcomes<T, E>(s: Seq<Pull<T, E>>) -> Seq<Pull<T, E>> {
    if s.len() == 0 {
        s
    } else {
        s.drop_first()
    }
}

/// A fallible, forward-only producer of a sequence of elements.
///
/// The ghost [`Source::model`] is the sequence of outcomes the source will
/// answer successive pulls with; once it has run out, every further pull
/// signals end-of-sequence. Each pull consumes exactly the first
/// outstanding outcome.
pub trait Source {
    /// The type of the elements produced.
    type Item;

    /// The type of the error a failed pull carries.
    type Error;

    /// The outcomes this source, in its current state, will answer
    /// successive pulls with.
    spec fn model(&self) -> Seq<Pull<Self::Item, Self::Error>>;

    /// Produce the next element, signal end-of-sequence, or fail.
    fn next(&mut self) -> (r: Result<Option<Self::Item>, Self::Error>)
        ensures
            r == next_outcome(old(self).model()),
            final(self).model() == rest_outcomes(old(self).model()),
    ;
}

} // verus!
