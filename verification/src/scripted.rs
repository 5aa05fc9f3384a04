//! A source that answers pulls from a prepared script of outcomes, and
//! counts how often it has been pulled. The counting makes laziness
//! observable: a freshly built buffer has performed zero pulls.

use vstd::prelude::*;

use crate::source::{Pull, Source};

verus! {

/// A [`Source`] that yields a prepared sequence of outcomes, one per
/// pull, and signals end-of-sequence once the script has run out.
#[derive(Clone)]
pub struct ScriptedSource<T, E> {
    script: Vec<Pull<T, E>>,
    pulls: usize,
}

impl<T, E> ScriptedSource<T, E> {
    /// How often this source has been pulled (saturating at the largest
    /// representable count).
    pub closed spec fn pulls_made(&self) -> usize {
        self.pulls
    }

    /// A source that will answer successive pulls with the outcomes of
    /// `script`, in order, and has not been pulled yet.
    pub fn new(script: Vec<Pull<T, E>>) -> (r: ScriptedSource<T, E>)
        ensures
            r.model() == script@,
            r.pulls_made() == 0,
    {
        ScriptedSource { script, pulls: 0 }
    }

    /// How often this source has been pulled.
    pub fn pull_count(&self) -> (r: usize)
        ensures
            r == self.pulls_made(),
    {
        self.pulls
    }
}

impl<T, E> Source for ScriptedSource<T, E> {
    type Item = T;

    type Error = E;

    /// The outcomes the script still holds.
    closed spec fn model(&self) -> Seq<Pull<T, E>> {
        self.script@
    }

    fn next(&mut self) -> (r: Result<Option<T>, E>)
        ensures
            old(self).pulls_made() < usize::MAX ==> final(self).pulls_made() == old(
                self,
            ).pulls_made() + 1,
    {
        if self.pulls < usize::MAX {
            self.pulls = self.pulls + 1;
        }
        if self.script.len() > 0 {
            let head = self.script.remove(0);
            proof {
                assert(self.script@ =~= old(self).model().drop_first());
            }
            match head {
                Pull::Item(t) => Ok(Some(t)),
                Pull::End => Ok(None),
                Pull::Fail(e) => Err(e),
            }
        } else {
            Ok(None)
        }
    }
}

} // verus!
