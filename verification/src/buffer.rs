//! The lookahead buffer itself: lazy fill-on-demand, peeking and
//! consumption over any [`Source`].

use vstd::prelude::*;

use crate::source::{next_outcome, rest_outcomes, Pull, Source};
use crate::fill::{fill_error, fill_queue, fill_source, outcomes};

verus! {

/// Adds [`Buffered::buffered`] to every [`Source`], wrapping it in a
/// [`LookaheadBuffer`]. The trait is already implemented for all sources.
pub trait Buffered: Source + Sized {
    /// Wrap `self` in a new, empty [`LookaheadBuffer`]. No element is
    /// pulled.
    fn buffered(self) -> (r: LookaheadBuffer<Self>)
        ensures
            r.inner() == self,
            r.queue_view() == Seq::<Self::Item>::empty(),
    ;
}

impl<T: Source> Buffered for T {
    fn buffered(self) -> (r: LookaheadBuffer<T>) {
        LookaheadBuffer::new(self)
    }
}

/// A lookahead buffer over a [`Source`].
///
/// The buffer owns the source and a queue of elements already pulled from
/// it but not yet handed to the consumer; the front of the queue is the
/// next element to be consumed. The queue starts empty, grows only when a
/// peek or consuming request needs more lookahead than is buffered, and
/// shrinks only when an element is consumed.
pub struct LookaheadBuffer<S: Source> {
    iter: S,
    queue: Vec<S::Item>,
}

impl<S: Source> LookaheadBuffer<S> {
    /// The wrapped source, in its current state.
    pub closed spec fn inner(&self) -> S {
        self.iter
    }

    /// The elements pulled from the source and not yet consumed, front
    /// first.
    pub closed spec fn queue_view(&self) -> Seq<S::Item> {
        self.queue@
    }

    /// The outcomes the wrapped source still has in store.
    pub open spec fn source_view(&self) -> Seq<Pull<S::Item, S::Error>> {
        self.inner().model()
    }

    /// Everything the buffer still has in store, in order: the queued
    /// elements first, then the source's outcomes.
    pub open spec fn outcomes_view(&self) -> Seq<Pull<S::Item, S::Error>> {
        outcomes(self.queue_view(), self.source_view())
    }

    /// Wrap `iter` in a new, empty buffer. No element is pulled: the
    /// source comes back out of [`LookaheadBuffer::destructure`] exactly
    /// as it went in, until some operation needs it.
    pub fn new(iter: S) -> (r: LookaheadBuffer<S>)
        ensures
            r.inner() == iter,
            r.queue_view() == Seq::<S::Item>::empty(),
    {
        LookaheadBuffer { iter, queue: Vec::new() }
    }

    /// A reference to the wrapped source.
    pub fn iter(&self) -> (r: &S)
        ensures
            *r == self.inner(),
    {
        &self.iter
    }

    /// A mutable reference to the wrapped source.
    pub fn iter_mut(&mut self) -> (r: &mut S)
        ensures
            *r == old(self).inner(),
            final(self).inner() == *final(r),
            final(self).queue_view() == old(self).queue_view(),
    {
        &mut self.iter
    }

    /// Take the buffer apart into the wrapped source and the queue of
    /// pulled-but-unconsumed elements, in consumption order.
    pub fn destructure(self) -> (r: (S, Vec<S::Item>))
        ensures
            r.0 == self.inner(),
            r.1@ == self.queue_view(),
    {
        let LookaheadBuffer { queue, iter } = self;
        (iter, queue)
    }

    /// Pull from the source and append to the queue until the queue holds
    /// `n` elements, the source signals end-of-sequence, or the source
    /// fails. A failure is propagated and every element pulled before it
    /// stays queued. Every peek reads the source through this operation
    /// alone; a depth already buffered costs nothing but a length check.
    fn try_ensure(&mut self, n: usize) -> (r: Result<(), S::Error>)
        ensures
            final(self).queue_view() == fill_queue(
                old(self).queue_view(),
                old(self).source_view(),
                n as nat,
            ),
            final(self).source_view() == fill_source(
                old(self).queue_view(),
                old(self).source_view(),
                n as nat,
            ),
            (match r {
                Ok(()) => fill_error(old(self).queue_view(), old(self).source_view(), n as nat)
                    is None,
                Err(e) => fill_error(old(self).queue_view(), old(self).source_view(), n as nat)
                    == Some(e),
            }),
            old(self).queue_view().len() >= n ==> *final(self) == *old(self),
    {
        if self.queue.len() >= n {
            return Ok(());
        }
        while self.queue.len() < n
            invariant_except_break
                fill_queue(old(self).queue_view(), old(self).source_view(), n as nat)
                    == fill_queue(self.queue_view(), self.source_view(), n as nat),
                fill_source(old(self).queue_view(), old(self).source_view(), n as nat)
                    == fill_source(self.queue_view(), self.source_view(), n as nat),
                fill_error(old(self).queue_view(), old(self).source_view(), n as nat)
                    == fill_error(self.queue_view(), self.source_view(), n as nat),
            ensures
                self.queue_view() == fill_queue(
                    old(self).queue_view(),
                    old(self).source_view(),
                    n as nat,
                ),
                self.source_view() == fill_source(
                    old(self).queue_view(),
                    old(self).source_view(),
                    n as nat,
                ),
                fill_error(old(self).queue_view(), old(self).source_view(), n as nat) is None,
            decreases n - self.queue.len(),
        {
            let ghost si = self.source_view();
            match self.iter.next() {
                Ok(Some(token)) => {
                    proof {
                        assert(si.len() > 0 && (si[0] matches Pull::Item(t) && t == token));
                    }
                    self.queue.push(token);
                },
                Ok(None) => {
                    proof {
                        assert(si.len() == 0 || si[0] is End);
                    }
                    break ;
                },
                Err(e) => {
                    proof {
                        assert(si.len() > 0 && (si[0] matches Pull::Fail(f) && f == e));
                    }
                    return Err(e);
                },
            }
        }
        Ok(())
    }

    /// Peek at the element at offset `n` from the front, `n == 0` being
    /// the next element to be consumed. Pulls just enough to reach depth
    /// `n + 1`; answers `Ok(None)` when the source is exhausted before
    /// that depth, and propagates a failure met on the way, keeping every
    /// element pulled before it. Does not consume anything.
    pub fn peek_n(&mut self, n: usize) -> (r: Result<Option<&S::Item>, S::Error>)
        requires
            n < usize::MAX,
        ensures
            final(self).queue_view() == fill_queue(
                old(self).queue_view(),
                old(self).source_view(),
                n as nat + 1,
            ),
            final(self).source_view() == fill_source(
                old(self).queue_view(),
                old(self).source_view(),
                n as nat + 1,
            ),
            (match r {
                Ok(Some(t)) => {
                    &&& fill_error(old(self).queue_view(), old(self).source_view(), n as nat + 1)
                        is None
                    &&& n < final(self).queue_view().len()
                    &&& *t == final(self).queue_view()[n as int]
                },
                Ok(None) => {
                    &&& fill_error(old(self).queue_view(), old(self).source_view(), n as nat + 1)
                        is None
                    &&& final(self).queue_view().len() <= n
                },
                Err(e) => fill_error(
                    old(self).queue_view(),
                    old(self).source_view(),
                    n as nat + 1,
                ) == Some(e),
            }),
            old(self).queue_view().len() > n ==> *final(self) == *old(self),
    {
        match self.try_ensure(n + 1) {
            Ok(()) => {
                if n < self.queue.len() {
                    Ok(Some(&self.queue[n]))
                } else {
                    Ok(None)
                }
            },
            Err(e) => Err(e),
        }
    }

    /// Peek at the next element to be consumed. Equivalent to
    /// `self.peek_n(0)`.
    pub fn peek(&mut self) -> (r: Result<Option<&S::Item>, S::Error>)
        ensures
            final(self).queue_view() == fill_queue(
                old(self).queue_view(),
                old(self).source_view(),
                1,
            ),
            final(self).source_view() == fill_source(
                old(self).queue_view(),
                old(self).source_view(),
                1,
            ),
            (match r {
                Ok(Some(t)) => {
                    &&& fill_error(old(self).queue_view(), old(self).source_view(), 1) is None
                    &&& final(self).queue_view().len() > 0
                    &&& *t == final(self).queue_view()[0]
                },
                Ok(None) => {
                    &&& fill_error(old(self).queue_view(), old(self).source_view(), 1) is None
                    &&& final(self).queue_view().len() == 0
                },
                Err(e) => fill_error(old(self).queue_view(), old(self).source_view(), 1) == Some(
                    e,
                ),
            }),
            old(self).queue_view().len() > 0 ==> *final(self) == *old(self),
    {
        self.peek_n(0)
    }

    /// Peek at the element at offset `n` from the front, mutably: the
    /// caller may change the buffered element in place, through the
    /// returned reference. The element stays in the queue; nothing is
    /// consumed. Apart from the mutation granted, the contract is that of
    /// [`LookaheadBuffer::peek_n`].
    pub fn peek_n_mut(&mut self, n: usize) -> (r: Result<Option<&mut S::Item>, S::Error>)
        requires
            n < usize::MAX,
        ensures
            final(self).source_view() == fill_source(
                old(self).queue_view(),
                old(self).source_view(),
                n as nat + 1,
            ),
            (match r {
                Ok(Some(m)) => {
                    &&& fill_error(old(self).queue_view(), old(self).source_view(), n as nat + 1)
                        is None
                    &&& n < fill_queue(
                        old(self).queue_view(),
                        old(self).source_view(),
                        n as nat + 1,
                    ).len()
                    &&& *m == fill_queue(
                        old(self).queue_view(),
                        old(self).source_view(),
                        n as nat + 1,
                    )[n as int]
                    &&& final(self).queue_view() == fill_queue(
                        old(self).queue_view(),
                        old(self).source_view(),
                        n as nat + 1,
                    ).update(n as int, *final(m))
                },
                Ok(None) => {
                    &&& fill_error(old(self).queue_view(), old(self).source_view(), n as nat + 1)
                        is None
                    &&& final(self).queue_view() == fill_queue(
                        old(self).queue_view(),
                        old(self).source_view(),
                        n as nat + 1,
                    )
                    &&& final(self).queue_view().len() <= n
                },
                Err(e) => {
                    &&& fill_error(old(self).queue_view(), old(self).source_view(), n as nat + 1)
                        == Some(e)
                    &&& final(self).queue_view() == fill_queue(
                        old(self).queue_view(),
                        old(self).source_view(),
                        n as nat + 1,
                    )
                },
            }),
            old(self).queue_view().len() > n ==> final(self).inner() == old(self).inner(),
    {
        match self.try_ensure(n + 1) {
            Ok(()) => {
                if n < self.queue.len() {
                    Ok(Some(&mut self.queue[n]))
                } else {
                    Ok(None)
                }
            },
            Err(e) => Err(e),
        }
    }

    /// Peek at the next element to be consumed, mutably. Equivalent to
    /// `self.peek_n_mut(0)`.
    pub fn peek_mut(&mut self) -> (r: Result<Option<&mut S::Item>, S::Error>)
        ensures
            final(self).source_view() == fill_source(
                old(self).queue_view(),
                old(self).source_view(),
                1,
            ),
            (match r {
                Ok(Some(m)) => {
                    &&& fill_error(old(self).queue_view(), old(self).source_view(), 1) is None
                    &&& fill_queue(old(self).queue_view(), old(self).source_view(), 1).len() > 0
                    &&& *m == fill_queue(old(self).queue_view(), old(self).source_view(), 1)[0]
                    &&& final(self).queue_view() == fill_queue(
                        old(self).queue_view(),
                        old(self).source_view(),
                        1,
                    ).update(0, *final(m))
                },
                Ok(None) => {
                    &&& fill_error(old(self).queue_view(), old(self).source_view(), 1) is None
                    &&& final(self).queue_view() == fill_queue(
                        old(self).queue_view(),
                        old(self).source_view(),
                        1,
                    )
                    &&& final(self).queue_view().len() == 0
                },
                Err(e) => {
                    &&& fill_error(old(self).queue_view(), old(self).source_view(), 1) == Some(e)
                    &&& final(self).queue_view() == fill_queue(
                        old(self).queue_view(),
                        old(self).source_view(),
                        1,
                    )
                },
            }),
            old(self).queue_view().len() > 0 ==> final(self).inner() == old(self).inner(),
    {
        self.peek_n_mut(0)
    }

    /// Peek at the next `n` elements as a window. Pulls just enough to
    /// reach depth `n`; slot `i` of the result holds the element at
    /// offset `i`, filled contiguously from the front, and every slot at
    /// or beyond the point where the source was exhausted is `None` —
    /// present and absent slots are never interleaved. A failure met on
    /// the way is propagated and no window is handed out.
    pub fn peek_multiple(&mut self, n: usize) -> (r: Result<Vec<Option<&S::Item>>, S::Error>)
        ensures
            final(self).queue_view() == fill_queue(
                old(self).queue_view(),
                old(self).source_view(),
                n as nat,
            ),
            final(self).source_view() == fill_source(
                old(self).queue_view(),
                old(self).source_view(),
                n as nat,
            ),
            (match r {
                Ok(pack) => {
                    &&& fill_error(old(self).queue_view(), old(self).source_view(), n as nat)
                        is None
                    &&& pack@.len() == n
                    &&& forall|i: int|
                        0 <= i < n ==> (match #[trigger] pack@[i] {
                            Some(t) => i < final(self).queue_view().len()
                                && *t == final(self).queue_view()[i],
                            None => i >= final(self).queue_view().len(),
                        })
                    &&& forall|i: int, j: int|
                        0 <= i <= j < n && pack@[j] is Some ==> pack@[i] is Some
                },
                Err(e) => fill_error(old(self).queue_view(), old(self).source_view(), n as nat)
                    == Some(e),
            }),
            old(self).queue_view().len() >= n ==> *final(self) == *old(self),
    {
        match self.try_ensure(n) {
            Ok(()) => {
                let mut pack: Vec<Option<&S::Item>> = Vec::new();
                let mut i: usize = 0;
                while i < n
                    invariant
                        i <= n,
                        pack@.len() == i,
                        forall|k: int|
                            0 <= k < i ==> (match #[trigger] pack@[k] {
                                Some(t) => k < self.queue_view().len() && *t
                                    == self.queue_view()[k],
                                None => k >= self.queue_view().len(),
                            }),
                    decreases n - i,
                {
                    if i < self.queue.len() {
                        pack.push(Some(&self.queue[i]));
                    } else {
                        pack.push(None);
                    }
                    i = i + 1;
                }
                Ok(pack)
            },
            Err(e) => Err(e),
        }
    }

    /// Peek at the next `n` elements as a window, mutably: the present
    /// slots hold pairwise distinct mutable references that partition the
    /// first `n` queued elements, so the caller may change each buffered
    /// element in place. The elements stay in the queue; nothing is
    /// consumed. Slot semantics are those of
    /// [`LookaheadBuffer::peek_multiple`].
    pub fn peek_multiple_mut(&mut self, n: usize) -> (r: Result<
        Vec<Option<&mut S::Item>>,
        S::Error,
    >)
        ensures
            final(self).source_view() == fill_source(
                old(self).queue_view(),
                old(self).source_view(),
                n as nat,
            ),
            (match r {
                Ok(pack) => {
                    let q1 = fill_queue(old(self).queue_view(), old(self).source_view(), n as nat);
                    &&& fill_error(old(self).queue_view(), old(self).source_view(), n as nat)
                        is None
                    &&& pack@.len() == n
                    &&& forall|i: int|
                        0 <= i < n ==> ((#[trigger] pack@[i]) is Some <==> i < q1.len())
                    &&& forall|i: int|
                        0 <= i < n && i < q1.len() ==> *(#[trigger] pack@[i]).unwrap() == q1[i]
                    &&& forall|i: int, j: int|
                        0 <= i <= j < n && pack@[j] is Some ==> pack@[i] is Some
                    &&& final(self).queue_view().len() == q1.len()
                    &&& forall|i: int|
                        0 <= i < n && i < q1.len()
                            ==> final(self).queue_view()[i]
                            == *final((#[trigger] pack@[i]).unwrap())
                    &&& forall|i: int|
                        n <= i < q1.len() ==> final(self).queue_view()[i] == q1[i]
                },
                Err(e) => {
                    &&& fill_error(old(self).queue_view(), old(self).source_view(), n as nat)
                        == Some(e)
                    &&& final(self).queue_view() == fill_queue(
                        old(self).queue_view(),
                        old(self).source_view(),
                        n as nat,
                    )
                },
            }),
            old(self).queue_view().len() >= n ==> final(self).inner() == old(self).inner(),
    {
        match self.try_ensure(n) {
            Ok(()) => {
                let ghost q1 = self.queue_view();
                let mut pack: Vec<Option<&mut S::Item>> = Vec::new();
                let mut rest: &mut [S::Item] = self.queue.as_mut_slice();
                let ghost mut spent: int = 0;
                let mut i: usize = 0;
                while i < n
                    invariant
                        i <= n,
                        pack@.len() == i,
                        spent == (if i as int <= q1.len() as int { i as int } else { q1.len() as int }),
                        rest@ == q1.skip(spent),
                        forall|k: int|
                            0 <= k < i ==> ((#[trigger] pack@[k]) is Some <==> k < q1.len()),
                        forall|k: int|
                            0 <= k < i && k < q1.len() ==> *(#[trigger] pack@[k]).unwrap()
                                == q1[k],
                        after_borrow(self.queue)@.len() == spent + final(rest)@.len(),
                        forall|k: int|
                            0 <= k < spent ==> after_borrow(self.queue)@[k] == *final(
                                (#[trigger] pack@[k]).unwrap()),
                        forall|k: int|
                            spent <= k < after_borrow(self.queue)@.len() ==> (#[trigger]
                            after_borrow(self.queue)@[k]) == final(rest)@[k - spent],
                    decreases n - i,
                {
                    if rest.len() > 0 {
                        let (head, tail) = rest.split_at_mut(1);
                        let slot = head.first_mut();
                        pack.push(slot);
                        rest = tail;
                        proof {
                            spent = spent + 1;
                        }
                    } else {
                        pack.push(None);
                    }
                    i = i + 1;
                }
                Ok(pack)
            },
            Err(e) => Err(e),
        }
    }

    /// Consume exactly one element and discard it. Equivalent to
    /// [`Source::next`] with the produced element dropped: the front of
    /// the queue is popped if one is buffered, else the source is pulled
    /// once.
    pub fn advance(&mut self) -> (r: Result<(), S::Error>)
        ensures
            (match r {
                Ok(()) => next_outcome(old(self).outcomes_view()) is Ok,
                Err(e) => next_outcome(old(self).outcomes_view()) == Err::<
                    Option<S::Item>,
                    S::Error,
                >(e),
            }),
            final(self).outcomes_view() == rest_outcomes(old(self).outcomes_view()),
            old(self).queue_view().len() > 0 ==> {
                &&& final(self).queue_view() == old(self).queue_view().drop_first()
                &&& final(self).inner() == old(self).inner()
            },
            old(self).queue_view().len() == 0 ==> {
                &&& final(self).queue_view().len() == 0
                &&& final(self).source_view() == rest_outcomes(old(self).source_view())
            },
    {
        match self.next() {
            Ok(_) => Ok(()),
            Err(e) => Err(e),
        }
    }
}

impl<S: Source + Clone> Clone for LookaheadBuffer<S> where S::Item: Clone {
    /// Duplicate the buffer when both the source and its elements support
    /// duplication: the queue is deep-copied element by element, in
    /// order, and the source is duplicated by its own `Clone`. The
    /// original is only read, never pulled from.
    fn clone(&self) -> (r: Self)
        ensures
            r.queue_view().len() == self.queue_view().len(),
            forall|i: int|
                0 <= i < self.queue_view().len() ==> cloned::<S::Item>(
                    self.queue_view()[i],
                    #[trigger] r.queue_view()[i],
                ),
            cloned::<S>(self.inner(), r.inner()),
    {
        LookaheadBuffer { queue: self.queue.clone(), iter: self.iter.clone() }
    }
}

impl<S: Source> Source for LookaheadBuffer<S> {
    type Item = S::Item;

    type Error = S::Error;

    /// A buffer is observationally indistinguishable from the source it
    /// wraps: what it has in store is the queued elements followed by the
    /// source's remaining outcomes, with no reordering, duplication or
    /// loss.
    open spec fn model(&self) -> Seq<Pull<S::Item, S::Error>> {
        self.outcomes_view()
    }

    /// Consume exactly one element: pop the front of the queue if one is
    /// buffered (no pull happens), else pull from the source once. A
    /// single element wanted and produced on the spot is never queued.
    fn next(&mut self) -> (r: Result<Option<S::Item>, S::Error>)
        ensures
            old(self).queue_view().len() > 0 ==> {
                &&& r == Ok::<Option<S::Item>, S::Error>(Some(old(self).queue_view()[0]))
                &&& final(self).queue_view() == old(self).queue_view().drop_first()
                &&& final(self).inner() == old(self).inner()
            },
            old(self).queue_view().len() == 0 ==> {
                &&& r == next_outcome(old(self).source_view())
                &&& final(self).queue_view().len() == 0
                &&& final(self).source_view() == rest_outcomes(old(self).source_view())
            },
    {
        if self.queue.len() > 0 {
            let t = self.queue.remove(0);
            proof {
                assert(self.queue@ =~= old(self).queue_view().drop_first());
                assert(old(self).outcomes_view()[0] == Pull::Item::<S::Item, S::Error>(
                    old(self).queue_view()[0],
                ));
                assert(self.outcomes_view() =~= rest_outcomes(old(self).outcomes_view()));
            }
            Ok(Some(t))
        } else {
            proof {
                assert(old(self).outcomes_view() =~= old(self).source_view());
            }
            let r = self.iter.next();
            proof {
                assert(self.outcomes_view() =~= rest_outcomes(old(self).outcomes_view()));
            }
            r
        }
    }
}

} // verus!
