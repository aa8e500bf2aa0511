//! The scrape queue: a FIFO queue of pending resource ids together
//! with a dedup index that records, for every id that is queued or
//! in flight, the position it was given when it was first enqueued.
//!
//! The dedup index guarantees at most one queued or in-flight entry
//! per id: enqueueing an id that is already claimed returns its
//! recorded position and changes nothing.  An id leaves the queue
//! when it is dequeued, but stays claimed until `release` is called
//! for it, so it cannot be queued (and hence dequeued) a second time
//! while it is being processed.

use vstd::prelude::*;

verus! {

/// Queue positions stay below this, so a position always fits `u64`
/// and the tail index cannot overflow.
pub const MAX_QUEUE_LEN: usize = 1_000_000_000;

/// Position recorded for `id` in a dedup index, reading the pairs in
/// order: the position of the first (and, in a well-formed queue,
/// only) pair that carries `id`, or `None` when `id` is not claimed.
pub open spec fn lookup_claim(claims: Seq<(u64, u64)>, id: u64) -> Option<u64>
    decreases claims.len(),
{
    if claims.len() == 0 {
        None
    } else if claims[0].0 == id {
        Some(claims[0].1)
    } else {
        lookup_claim(claims.drop_first(), id)
    }
}

pub struct ScrapeQueue {
    /// Ids waiting to be fetched, oldest first.
    pub entries: Vec<u64>,
    /// The dedup index: one `(id, recorded position)` pair for every
    /// id that is queued or in flight.
    pub claimed: Vec<(u64, u64)>,
}

impl ScrapeQueue {
    /// The recorded position of `id`, if `id` is claimed.
    pub open spec fn claim_of(self, id: u64) -> Option<u64> {
        lookup_claim(self.claimed@, id)
    }

    /// `id` is claimed but no longer queued: it has been dequeued and
    /// `release` has not yet been called for it.
    pub open spec fn in_flight(self, id: u64) -> bool {
        self.claim_of(id) is Some && !self.entries@.contains(id)
    }

    /// Everything `enqueue` promises: either the id was already
    /// claimed and the state is untouched with the recorded position
    /// observed, or the id was appended and claimed at the new queue
    /// length.
    pub open spec fn enqueue_step(self, q1: ScrapeQueue, id: u64, pos: u64) -> bool {
        &&& q1.wf()
        &&& q1.claim_of(id) == Some(pos)
        &&& match self.claim_of(id) {
            Some(p) => pos == p && q1 == self,
            None => {
                &&& pos == self.entries@.len() + 1
                &&& q1.entries@ == self.entries@.push(id)
                &&& q1.claimed@ == self.claimed@.push((id, pos))
            },
        }
    }

    /// Everything `dequeue` promises: the oldest queued id leaves
    /// the queue (or nothing happens on an empty queue), and the
    /// dedup index is untouched.
    pub open spec fn dequeue_step(self, q1: ScrapeQueue, r: Option<u64>) -> bool {
        &&& q1.wf()
        &&& q1.claimed@ == self.claimed@
        &&& if self.entries@.len() == 0 {
            r is None && q1 == self
        } else {
            r == Some(self.entries@[0]) && q1.entries@ == self.entries@.drop_first()
        }
    }

    /// Everything `release` promises: the id's claim is gone, every
    /// other claim and the queued ids are untouched.
    pub open spec fn release_step(self, q1: ScrapeQueue, id: u64) -> bool {
        &&& q1.wf()
        &&& q1.entries@ == self.entries@
        &&& q1.claim_of(id) is None
        &&& forall|x: u64| x != id ==> q1.claim_of(x) == self.claim_of(x)
    }

    /// Well-formedness: no id is queued twice, no id is claimed
    /// twice, and every queued id is claimed.
    pub open spec fn wf(self) -> bool {
        &&& forall|i: int, j: int|
            0 <= i < j < self.entries@.len() ==> self.entries@[i] != self.entries@[j]
        &&& forall|i: int, j: int|
            0 <= i < j < self.claimed@.len() ==> self.claimed@[i].0 != self.claimed@[j].0
        &&& forall|i: int|
            0 <= i < self.entries@.len() ==> lookup_claim(self.claimed@, self.entries@[i]) is Some
    }

    pub fn new() -> (q: ScrapeQueue)
        ensures
            q.wf(),
            q.entries@ =~= Seq::<u64>::empty(),
            q.claimed@ =~= Seq::<(u64, u64)>::empty(),
    {
        ScrapeQueue { entries: Vec::new(), claimed: Vec::new() }
    }

    /// Claim `id`, or observe its existing claim.  Atomically (this
    /// whole call is the critical section): if `id` is already
    /// claimed, return its recorded position and change nothing;
    /// otherwise append `id` to the tail of the queue, record the new
    /// queue length as its position, and index the claim.
    pub fn enqueue(&mut self, id: u64) -> (pos: u64)
        requires
            old(self).wf(),
            old(self).entries@.len() < MAX_QUEUE_LEN,
        ensures
            old(self).enqueue_step(*final(self), id, pos),
    {
        let n = self.claimed.len();
        let mut i: usize = 0;
        while i < n
            invariant
                old(self).wf(),
                *self == *old(self),
                n == self.claimed@.len(),
                0 <= i <= n,
                forall|j: int| 0 <= j < i ==> self.claimed@[j].0 != id,
            decreases n - i,
        {
            if self.claimed[i].0 == id {
                proof {
                    lemma_lookup_claim_found(self.claimed@, id, i as int);
                }
                return self.claimed[i].1;
            }
            i += 1;
        }
        proof {
            lemma_lookup_claim_none(self.claimed@, id);
        }
        self.entries.push(id);
        let pos = self.entries.len() as u64;
        self.claimed.push((id, pos));
        proof {
            lemma_lookup_claim_push(old(self).claimed@, id, pos);
            assert(final(self).wf()) by {
                lemma_wf_after_fresh_enqueue(*old(self), *final(self), id, pos);
            }
        }
        pos
    }

    /// Remove and return the oldest queued id, or `None` when the
    /// queue is empty.  The dedup index is untouched: the id stays
    /// claimed (it is now in flight) until `release`.
    pub fn dequeue(&mut self) -> (r: Option<u64>)
        requires
            old(self).wf(),
        ensures
            old(self).dequeue_step(*final(self), r),
            old(self).entries@.len() > 0 ==> final(self).in_flight(old(self).entries@[0]),
    {
        if self.entries.len() == 0 {
            None
        } else {
            let id = self.entries.remove(0);
            proof {
                let rest = final(self).entries@;
                assert(rest =~= old(self).entries@.drop_first());
                assert(!rest.contains(id)) by {
                    assert forall|i: int| 0 <= i < rest.len() implies rest[i] != id by {
                        assert(rest[i] == old(self).entries@[i + 1]);
                        assert(old(self).entries@[i + 1] != old(self).entries@[0]);
                    }
                }
            }
            Some(id)
        }
    }

    /// Drop the claim for `id`, called when the worker finishes
    /// handling `id`, whatever the outcome.  The worker only handles
    /// ids it has dequeued, so `id` is no longer queued.
    pub fn release(&mut self, id: u64)
        requires
            old(self).wf(),
            !old(self).entries@.contains(id),
        ensures
            old(self).release_step(*final(self), id),
    {
        let n = self.claimed.len();
        let mut i: usize = 0;
        while i < n
            invariant
                old(self).wf(),
                !old(self).entries@.contains(id),
                *self == *old(self),
                n == self.claimed@.len(),
                0 <= i <= n,
                forall|j: int| 0 <= j < i ==> self.claimed@[j].0 != id,
            decreases n - i,
        {
            if self.claimed[i].0 == id {
                self.claimed.remove(i);
                proof {
                    lemma_wf_after_release(*old(self), *self, id, i as int);
                }
                return ;
            }
            i += 1;
        }
        proof {
            lemma_lookup_claim_none(self.claimed@, id);
        }
    }
}


// What follows are the stated guarantees of the dedup index, as
// laws over the transition predicates above.

/// Law: enqueues of one id agree on its position.  The first call
/// for an unclaimed id records a position; because each enqueue is a
/// single atomic step, any number of further enqueues of that id —
/// however they interleave — leave the queue untouched and observe
/// that same recorded position, so all callers see one identical
/// position, one queue entry, and one dedup entry.
pub proof fn lemma_enqueue_agrees(
    q0: ScrapeQueue,
    q1: ScrapeQueue,
    q2: ScrapeQueue,
    id: u64,
    pos1: u64,
    pos2: u64,
)
    requires
        q0.wf(),
        q0.enqueue_step(q1, id, pos1),
        q1.enqueue_step(q2, id, pos2),
    ensures
        pos2 == pos1,
        q2 == q1,
{
}

/// Law: the enqueue that claims an id creates exactly one queue
/// entry for it — at the tail — and registers exactly its fresh
/// position in the dedup index.
pub proof fn lemma_enqueue_single_entry(q0: ScrapeQueue, q1: ScrapeQueue, id: u64, pos: u64)
    requires
        q0.wf(),
        q0.claim_of(id) is None,
        q0.enqueue_step(q1, id, pos),
    ensures
        pos == q0.entries@.len() + 1,
        q1.claim_of(id) == Some(pos),
        forall|j: int|
            0 <= j < q1.entries@.len() ==> (q1.entries@[j] == id <==> j == q1.entries@.len() - 1),
{
    assert forall|j: int| 0 <= j < q0.entries@.len() implies q0.entries@[j] != id by {
        assert(lookup_claim(q0.claimed@, q0.entries@[j]) is Some);
    }
}

/// Law: while an id is in flight (dequeued but not yet released), an
/// enqueue of any id cannot return it to the queue; it stays in
/// flight.
pub proof fn lemma_inflight_enqueue(q0: ScrapeQueue, q1: ScrapeQueue, id: u64, id2: u64, pos: u64)
    requires
        q0.wf(),
        q0.in_flight(id),
        q0.enqueue_step(q1, id2, pos),
    ensures
        q1.in_flight(id),
{
    if q0.claim_of(id2) is None {
        lemma_lookup_claim_push(q0.claimed@, id2, pos);
        if id2 != id {
            assert(q1.claim_of(id) == q0.claim_of(id));
        }
        assert(!q1.entries@.contains(id)) by {
            assert forall|j: int| 0 <= j < q1.entries@.len() implies q1.entries@[j] != id by {
                if j < q0.entries@.len() {
                    assert(!q0.entries@.contains(id));
                    assert(q0.entries@[j] != id);
                }
            }
        }
    }
}

/// Law: while an id is in flight, no dequeue can hand it out a
/// second time, and it stays in flight afterwards.  Together with
/// the enqueue law, an id in the dedup index is never dequeued again
/// before `release` is called for it.
pub proof fn lemma_inflight_dequeue(q0: ScrapeQueue, q1: ScrapeQueue, r: Option<u64>, id: u64)
    requires
        q0.wf(),
        q0.in_flight(id),
        q0.dequeue_step(q1, r),
    ensures
        r != Some(id),
        q1.in_flight(id),
{
    if q0.entries@.len() > 0 {
        assert(q0.entries@[0] != id) by {
            assert(!q0.entries@.contains(id));
        }
        assert(!q1.entries@.contains(id)) by {
            assert forall|j: int| 0 <= j < q1.entries@.len() implies q1.entries@[j] != id by {
                assert(q1.entries@[j] == q0.entries@[j + 1]);
                assert(q0.entries@[j + 1] != id);
            }
        }
    }
}

/// Law: `release` is what ends the in-flight state — afterwards the
/// id is unclaimed, and a fresh lookup can enqueue it again.
pub proof fn lemma_release_clears(q0: ScrapeQueue, q1: ScrapeQueue, id: u64)
    requires
        q0.release_step(q1, id),
    ensures
        !q1.in_flight(id),
        q1.claim_of(id) is None,
{
}

proof fn lemma_lookup_claim_found(claims: Seq<(u64, u64)>, id: u64, i: int)
    requires
        0 <= i < claims.len(),
        claims[i].0 == id,
        forall|j: int| 0 <= j < i ==> claims[j].0 != id,
    ensures
        lookup_claim(claims, id) == Some(claims[i].1),
    decreases i,
{
    if i > 0 {
        lemma_lookup_claim_found(claims.drop_first(), id, i - 1);
    }
}

proof fn lemma_lookup_claim_none(claims: Seq<(u64, u64)>, id: u64)
    requires
        forall|j: int| 0 <= j < claims.len() ==> claims[j].0 != id,
    ensures
        lookup_claim(claims, id) is None,
    decreases claims.len(),
{
    if claims.len() > 0 {
        lemma_lookup_claim_none(claims.drop_first(), id);
    }
}

/// Appending a pair for a fresh id extends the index pointwise: the
/// fresh id gains its claim and every other id keeps its lookup.
proof fn lemma_lookup_claim_push(claims: Seq<(u64, u64)>, id: u64, pos: u64)
    ensures
        forall|x: u64|
            x != id ==> #[trigger] lookup_claim(claims.push((id, pos)), x) == lookup_claim(
                claims,
                x,
            ),
        lookup_claim(claims, id) is None ==> lookup_claim(claims.push((id, pos)), id) == Some(
            pos,
        ),
    decreases claims.len(),
{
    if claims.len() == 0 {
        assert(claims.push((id, pos)).drop_first() =~= claims);
    } else {
        lemma_lookup_claim_push(claims.drop_first(), id, pos);
        assert(claims.push((id, pos)).drop_first() =~= claims.drop_first().push((id, pos)));
        assert forall|x: u64| x != id implies #[trigger] lookup_claim(claims.push((id, pos)), x)
            == lookup_claim(claims, x) by {
            if claims[0].0 != x {
                assert(lookup_claim(claims.drop_first().push((id, pos)), x) == lookup_claim(
                    claims.drop_first(),
                    x,
                ));
            }
        }
        if lookup_claim(claims, id) is None {
            assert(lookup_claim(claims.drop_first(), id) is None);
            assert(lookup_claim(claims.drop_first().push((id, pos)), id) == Some(pos));
        }
    }
}

proof fn lemma_wf_after_fresh_enqueue(q0: ScrapeQueue, q1: ScrapeQueue, id: u64, pos: u64)
    requires
        q0.wf(),
        lookup_claim(q0.claimed@, id) is None,
        q1.entries@ == q0.entries@.push(id),
        q1.claimed@ == q0.claimed@.push((id, pos)),
    ensures
        q1.wf(),
{
    assert forall|i: int, j: int| 0 <= i < j < q1.entries@.len() implies q1.entries@[i]
        != q1.entries@[j] by {
        if j == q1.entries@.len() - 1 {
            if q1.entries@[i] == id {
                assert(q0.entries@.contains(id)) by {
                    assert(q0.entries@[i] == id);
                }
                assert(lookup_claim(q0.claimed@, q0.entries@[i]) is Some);
            }
        }
    }
    assert forall|i: int, j: int| 0 <= i < j < q1.claimed@.len() implies q1.claimed@[i].0
        != q1.claimed@[j].0 by {
        if j == q1.claimed@.len() - 1 {
            if q1.claimed@[i].0 == id {
                lemma_lookup_claim_found(q0.claimed@, id, i);
            }
        }
    }
    lemma_lookup_claim_push(q0.claimed@, id, pos);
    assert forall|i: int| 0 <= i < q1.entries@.len() implies lookup_claim(
        q1.claimed@,
        q1.entries@[i],
    ) is Some by {
        if i < q0.entries@.len() {
            assert(lookup_claim(q0.claimed@, q0.entries@[i]) is Some);
            if q0.entries@[i] != id {
                assert(lookup_claim(q1.claimed@, q1.entries@[i]) == lookup_claim(
                    q0.claimed@,
                    q0.entries@[i],
                ));
            }
        }
    }
}

/// Removing the only pair that holds `id` erases its claim and keeps
/// every other lookup.
proof fn lemma_lookup_claim_remove(claims: Seq<(u64, u64)>, id: u64, i: int)
    requires
        0 <= i < claims.len(),
        claims[i].0 == id,
        forall|p: int, q: int| 0 <= p < q < claims.len() ==> claims[p].0 != claims[q].0,
    ensures
        lookup_claim(claims.remove(i), id) is None,
        forall|x: u64|
            x != id ==> #[trigger] lookup_claim(claims.remove(i), x) == lookup_claim(claims, x),
    decreases claims.len(),
{
    assert forall|j: int| 0 <= j < claims.remove(i).len() implies claims.remove(i)[j].0 != id by {
        if j < i {
            assert(claims.remove(i)[j] == claims[j]);
        } else {
            assert(claims.remove(i)[j] == claims[j + 1]);
        }
    }
    lemma_lookup_claim_none(claims.remove(i), id);
    if i == 0 {
        assert(claims.remove(0) =~= claims.drop_first());
        assert forall|x: u64| x != id implies #[trigger] lookup_claim(claims.remove(i), x)
            == lookup_claim(claims, x) by {
            assert(lookup_claim(claims, x) == lookup_claim(claims.drop_first(), x));
        }
    } else {
        lemma_lookup_claim_remove(claims.drop_first(), id, i - 1);
        assert(claims.remove(i).drop_first() =~= claims.drop_first().remove(i - 1));
        assert(claims.remove(i)[0] == claims[0]);
        assert forall|x: u64| x != id implies #[trigger] lookup_claim(claims.remove(i), x)
            == lookup_claim(claims, x) by {
            if claims[0].0 != x {
                assert(lookup_claim(claims.drop_first().remove(i - 1), x) == lookup_claim(
                    claims.drop_first(),
                    x,
                ));
            }
        }
    }
}

proof fn lemma_wf_after_release(q0: ScrapeQueue, q1: ScrapeQueue, id: u64, i: int)
    requires
        q0.wf(),
        !q0.entries@.contains(id),
        0 <= i < q0.claimed@.len(),
        q0.claimed@[i].0 == id,
        q1.entries@ == q0.entries@,
        q1.claimed@ == q0.claimed@.remove(i),
    ensures
        q1.wf(),
        lookup_claim(q1.claimed@, id) is None,
        forall|x: u64| x != id ==> lookup_claim(q1.claimed@, x) == lookup_claim(q0.claimed@, x),
{
    lemma_lookup_claim_remove(q0.claimed@, id, i);
    assert forall|p: int, q: int| 0 <= p < q < q1.claimed@.len() implies q1.claimed@[p].0
        != q1.claimed@[q].0 by {
        let p0: int = if p < i {
            p
        } else {
            p + 1
        };
        let q0i: int = if q < i {
            q
        } else {
            q + 1
        };
        assert(q1.claimed@[p] == q0.claimed@[p0]);
        assert(q1.claimed@[q] == q0.claimed@[q0i]);
    }
    assert forall|k: int| 0 <= k < q1.entries@.len() implies lookup_claim(
        q1.claimed@,
        q1.entries@[k],
    ) is Some by {
        assert(q0.entries@[k] != id) by {
            if q0.entries@[k] == id {
                assert(q0.entries@.contains(id));
            }
        }
        assert(lookup_claim(q1.claimed@, q1.entries@[k]) == lookup_claim(
            q0.claimed@,
            q0.entries@[k],
        ));
    }
}

} // verus!
