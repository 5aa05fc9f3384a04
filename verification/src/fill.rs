//! The mathematical model of lazy fill: how a pending queue and a source's
//! outstanding outcomes evolve when a lookahead request asks for a given
//! depth, and the laws the buffer's operations obey.

use vstd::prelude::*;

use crate::source::{next_outcome, rest_outcomes, Pull};

verus! {

/// A queue of already-pulled elements, seen as a sequence of outcomes.
pub open spec fn queued<T, E>(q: Seq<T>) -> Seq<Pull<T, E>> {
    q.map(|i: int, t: T| Pull::Item(t))
}

/// Everything a buffer still has in store, in order: its queued elements
/// first, then the outcomes its source will produce.
pub open spec fn outcomes<T, E>(q: Seq<T>, s: Seq<Pull<T, E>>) -> Seq<Pull<T, E>> {
    queued::<T, E>(q) + s
}

/// The queue after a request for lookahead depth `n`: elements are pulled
/// from the source and appended until the queue holds `n` of them, or the
/// source signals end-of-sequence or fails, or the source's outcomes run
/// out (which also means end-of-sequence).
pub open spec fn fill_queue<T, E>(q: Seq<T>, s: Seq<Pull<T, E>>, n: nat) -> Seq<T>
    decreases n - q.len(),
{
    if q.len() >= n || s.len() == 0 {
        q
    } else {
        match s[0] {
            Pull::Item(t) => fill_queue(q.push(t), s.drop_first(), n),
            Pull::End => q,
            Pull::Fail(_) => q,
        }
    }
}

/// The source's outstanding outcomes after a request for lookahead depth
/// `n`: each pull, whatever its outcome, consumes one of them.
pub open spec fn fill_source<T, E>(q: Seq<T>, s: Seq<Pull<T, E>>, n: nat) -> Seq<Pull<T, E>>
    decreases n - q.len(),
{
    if q.len() >= n || s.len() == 0 {
        s
    } else {
        match s[0] {
            Pull::Item(t) => fill_source(q.push(t), s.drop_first(), n),
            Pull::End => s.drop_first(),
            Pull::Fail(_) => s.drop_first(),
        }
    }
}

/// The error a request for lookahead depth `n` propagates, if the source
/// fails before the depth is reached; `None` on success or on plain
/// end-of-sequence.
pub open spec fn fill_error<T, E>(q: Seq<T>, s: Seq<Pull<T, E>>, n: nat) -> Option<E>
    decreases n - q.len(),
{
    if q.len() >= n || s.len() == 0 {
        None
    } else {
        match s[0] {
            Pull::Item(t) => fill_error(q.push(t), s.drop_first(), n),
            Pull::End => None,
            Pull::Fail(e) => Some(e),
        }
    }
}

/// Order preservation: a buffer whose store is the failure-free elements
/// `items` hands out exactly `items[0]`, then the rest in order; once
/// `items` has run out, it answers "no element", and its store stays
/// empty, forever after.
pub proof fn lemma_order_preservation<T, E>(items: Seq<T>)
    ensures
        items.len() > 0 ==> {
            &&& next_outcome(queued::<T, E>(items)) == Ok::<Option<T>, E>(Some(items[0]))
            &&& rest_outcomes(queued::<T, E>(items)) == queued::<T, E>(items.drop_first())
        },
        items.len() == 0 ==> {
            &&& next_outcome(queued::<T, E>(items)) == Ok::<Option<T>, E>(None)
            &&& rest_outcomes(queued::<T, E>(items)) == queued::<T, E>(items)
        },
{
    if items.len() > 0 {
        assert(queued::<T, E>(items)[0] == Pull::Item::<T, E>(items[0]));
        assert(queued::<T, E>(items).drop_first() =~= queued::<T, E>(items.drop_first()));
    }
}

/// Every element already queued stays queued, in place: extending the
/// lookahead only appends, whatever the source answers — in particular, a
/// later failure does not roll an earlier pull back.
pub proof fn lemma_fill_preserves_prefix<T, E>(q: Seq<T>, s: Seq<Pull<T, E>>, n: nat)
    ensures
        q.len() <= fill_queue(q, s, n).len(),
        fill_queue(q, s, n).take(q.len() as int) == q,
    decreases n - q.len(),
{
    if q.len() >= n || s.len() == 0 {
        assert(q.take(q.len() as int) =~= q);
    } else {
        match s[0] {
            Pull::Item(t) => {
                lemma_fill_preserves_prefix(q.push(t), s.drop_first(), n);
                let f = fill_queue(q, s, n);
                assert(f.take((q.len() + 1) as int) == q.push(t));
                assert forall|i: int| 0 <= i < q.len() implies f[i] == q[i] by {
                    assert(f.take((q.len() + 1) as int)[i] == q.push(t)[i]);
                }
                assert(f.take(q.len() as int) =~= q);
            },
            Pull::End => {
                assert(q.take(q.len() as int) =~= q);
            },
            Pull::Fail(_) => {
                assert(q.take(q.len() as int) =~= q);
            },
        }
    }
}

/// Extending the lookahead never reorders, duplicates or loses anything:
/// afterwards the buffer's store is either exactly what it was, or what
/// it was with the one non-element outcome that stopped the fill — the
/// end-of-sequence signal, or the failure reported — taken out of it.
pub proof fn lemma_fill_preserves_outcomes<T, E>(q: Seq<T>, s: Seq<Pull<T, E>>, n: nat)
    ensures
        ({
            let q1 = fill_queue(q, s, n);
            let s1 = fill_source(q, s, n);
            ||| (outcomes(q1, s1) == outcomes(q, s) && fill_error(q, s, n) is None)
            ||| {
                &&& q1.len() < outcomes(q, s).len()
                &&& outcomes(q1, s1) == outcomes(q, s).remove(q1.len() as int)
                &&& (match fill_error(q, s, n) {
                    Some(e) => outcomes(q, s)[q1.len() as int] == Pull::Fail::<T, E>(e),
                    None => outcomes(q, s)[q1.len() as int] is End,
                })
            }
        }),
    decreases n - q.len(),
{
    if q.len() >= n || s.len() == 0 {
    } else {
        match s[0] {
            Pull::Item(t) => {
                lemma_fill_preserves_outcomes(q.push(t), s.drop_first(), n);
                assert(outcomes(q.push(t), s.drop_first()) =~= outcomes(q, s));
            },
            Pull::End => {
                assert(outcomes(q, s)[q.len() as int] == s[0]);
                assert(outcomes(q, s.drop_first()) =~= outcomes(q, s).remove(q.len() as int));
            },
            Pull::Fail(_) => {
                assert(outcomes(q, s)[q.len() as int] == s[0]);
                assert(outcomes(q, s.drop_first()) =~= outcomes(q, s).remove(q.len() as int));
            },
        }
    }
}

/// Peek idempotence: once a lookahead request has been satisfied in full
/// — the queue reached the asked-for depth — no failure was met, and
/// repeating the same request changes nothing at all: the queue and the
/// source stay as they are (the repeat pulls nothing), so the repeated
/// peek reads the same element from the same place.
pub proof fn lemma_peek_idempotent<T, E>(q: Seq<T>, s: Seq<Pull<T, E>>, n: nat)
    requires
        fill_queue(q, s, n).len() >= n,
    ensures
        fill_error(q, s, n) is None,
        fill_queue(fill_queue(q, s, n), fill_source(q, s, n), n) == fill_queue(q, s, n),
        fill_source(fill_queue(q, s, n), fill_source(q, s, n), n) == fill_source(q, s, n),
        fill_error(fill_queue(q, s, n), fill_source(q, s, n), n) is None,
    decreases n - q.len(),
{
    if q.len() >= n || s.len() == 0 {
    } else {
        match s[0] {
            Pull::Item(t) => {
                lemma_peek_idempotent(q.push(t), s.drop_first(), n);
            },
            Pull::End => {
            },
            Pull::Fail(_) => {
            },
        }
    }
}

/// Peek/advance equivalence: when peeking at the next element finds one,
/// consuming right afterwards yields that very element; when the peek
/// found the buffer's store empty, consuming right afterwards yields "no
/// element" as well.
pub proof fn lemma_peek_advance_equivalence<T, E>(q: Seq<T>, s: Seq<Pull<T, E>>)
    ensures
        fill_queue(q, s, 1).len() >= 1 ==> next_outcome(
            outcomes(fill_queue(q, s, 1), fill_source(q, s, 1)),
        ) == Ok::<Option<T>, E>(Some(fill_queue(q, s, 1)[0])),
        (fill_queue(q, s, 1).len() == 0 && fill_source(q, s, 1).len() == 0) ==> next_outcome(
            outcomes(fill_queue(q, s, 1), fill_source(q, s, 1)),
        ) == Ok::<Option<T>, E>(None),
{
    let q1 = fill_queue(q, s, 1);
    let s1 = fill_source(q, s, 1);
    if q1.len() >= 1 {
        assert(outcomes(q1, s1)[0] == queued::<T, E>(q1)[0]);
        assert(queued::<T, E>(q1)[0] == Pull::Item::<T, E>(q1[0]));
    } else if s1.len() == 0 {
        assert(outcomes(q1, s1).len() == 0);
    }
}

/// Failure preserves the prefix: with a source that yields `a0`, then
/// fails with `err`, then (if ever pulled again) yields `a1`, a lookahead
/// of depth two propagates the failure, yet `a0` — pulled before the
/// failure — stays queued; a following lookahead of depth one is answered
/// from the queue, without pulling `a0` again and without touching the
/// source at all.
pub proof fn lemma_failure_preserves_prefix<T, E>(a0: T, a1: T, err: E)
    ensures
        ({
            let s = seq![Pull::Item(a0), Pull::Fail(err), Pull::Item(a1)];
            let q0 = Seq::<T>::empty();
            &&& fill_error(q0, s, 2) == Some(err)
            &&& fill_queue(q0, s, 2) == seq![a0]
            &&& fill_source(q0, s, 2) == seq![Pull::Item::<T, E>(a1)]
            &&& fill_queue(seq![a0], seq![Pull::Item::<T, E>(a1)], 1) == seq![a0]
            &&& fill_source(seq![a0], seq![Pull::Item::<T, E>(a1)], 1) == seq![
                Pull::Item::<T, E>(a1),
            ]
            &&& fill_error(seq![a0], seq![Pull::Item::<T, E>(a1)], 1) is None
        }),
{
    let s = seq![Pull::Item(a0), Pull::Fail(err), Pull::Item(a1)];
    let q0 = Seq::<T>::empty();
    assert(s.drop_first() =~= seq![Pull::Fail::<T, E>(err), Pull::Item::<T, E>(a1)]);
    assert(s.drop_first().drop_first() =~= seq![Pull::Item::<T, E>(a1)]);
    assert(q0.push(a0) =~= seq![a0]);
    assert(s[0] == Pull::Item::<T, E>(a0));
    assert(fill_queue(q0, s, 2) == fill_queue(q0.push(a0), s.drop_first(), 2));
    assert(s.drop_first()[0] == Pull::Fail::<T, E>(err));
    assert(fill_queue(q0.push(a0), s.drop_first(), 2) == q0.push(a0));
    assert(fill_error(q0, s, 2) == fill_error(q0.push(a0), s.drop_first(), 2));
    assert(fill_error(q0.push(a0), s.drop_first(), 2) == Some(err));
    assert(fill_source(q0, s, 2) == fill_source(q0.push(a0), s.drop_first(), 2));
    assert(fill_source(q0.push(a0), s.drop_first(), 2) == s.drop_first().drop_first());
}

} // verus!
