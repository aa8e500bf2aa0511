//! The frecency engine's verified half: underflow normalization and
//! the staleness-priority selection.
//!
//! The score itself is a log-space decaying hit counter computed in
//! floating point by the process shell.  The engine's decisions only
//! ever compare scores taken at one instant, and the decayed weight
//! `exp(frecency - now_decay)` is strictly monotone in `frecency`,
//! so ordering by decayed score descending is ordering by the score
//! itself descending, and the underflow test `decayed < epsilon` is
//! the test `frecency < ln(epsilon) + now_decay`.  The store hence
//! carries an order-preserving integer key for the score, the shell
//! translates the epsilon floor into that key space, and everything
//! the engine decides is verified here over plain integers.

use crate::store::PersistedRecord;
use crate::store::RecordModel;
use crate::store::Store;
use vstd::multiset::Multiset;
use vstd::prelude::*;

verus! {

/// A record is refreshed only once it is older than this floor.
pub const STALENESS_FLOOR_SECS: i64 = 43200;

/// At most this many records are refreshed per cycle.
pub const REFRESH_BATCH_LIMIT: usize = 100;

/// What selection reads of a record: its id and the two fields the
/// staleness priority orders by.
#[derive(Clone, Copy, PartialEq, Eq, Structural, Debug)]
pub struct StaleCandidate {
    pub id: u64,
    pub frecency: i64,
    pub last_update: i64,
}

pub open spec fn candidate_of(m: RecordModel) -> StaleCandidate {
    StaleCandidate { id: m.id, frecency: m.frecency, last_update: m.last_update }
}

/// The staleness priority: higher decayed score first, ties broken
/// by `last_update` ascending (oldest refreshed first).  A total
/// preorder: records tied on both fields rank equal either way.
pub open spec fn prio_geq(a: StaleCandidate, b: StaleCandidate) -> bool {
    a.frecency > b.frecency || (a.frecency == b.frecency && a.last_update <= b.last_update)
}

/// Stale means last updated strictly before the cutoff instant.
pub open spec fn is_stale(m: RecordModel, cutoff: i64) -> bool {
    m.last_update < cutoff
}

/// The stale records of `s`, in store order, projected to what
/// selection reads.
pub open spec fn stale_candidates(s: Seq<RecordModel>, cutoff: i64) -> Seq<StaleCandidate>
    decreases s.len(),
{
    if s.len() == 0 {
        Seq::empty()
    } else {
        let rest = stale_candidates(s.drop_last(), cutoff);
        if is_stale(s.last(), cutoff) {
            rest.push(candidate_of(s.last()))
        } else {
            rest
        }
    }
}

/// Insert `c` into a priority-sorted sequence, after every element
/// that ranks at least as high.
pub open spec fn spec_insert(s: Seq<StaleCandidate>, c: StaleCandidate) -> Seq<StaleCandidate>
    decreases s.len(),
{
    if s.len() == 0 {
        seq![c]
    } else if prio_geq(s[0], c) {
        seq![s[0]] + spec_insert(s.drop_first(), c)
    } else {
        seq![c] + s
    }
}

/// Insertion sort by the staleness priority, stable: elements are
/// inserted left to right, each after its equals.
pub open spec fn spec_sort(s: Seq<StaleCandidate>) -> Seq<StaleCandidate>
    decreases s.len(),
{
    if s.len() == 0 {
        Seq::empty()
    } else {
        spec_insert(spec_sort(s.drop_last()), s.last())
    }
}

/// What one refresh cycle selects: the stale records, ordered by the
/// staleness priority, capped at `limit`.
pub open spec fn spec_selection(s: Seq<RecordModel>, cutoff: i64, limit: int) -> Seq<
    StaleCandidate,
> {
    let sorted = spec_sort(stale_candidates(s, cutoff));
    if limit < sorted.len() {
        sorted.take(limit)
    } else {
        sorted
    }
}

pub fn prio_geq_exec(a: StaleCandidate, b: StaleCandidate) -> (r: bool)
    ensures
        r == prio_geq(a, b),
{
    a.frecency > b.frecency || (a.frecency == b.frecency && a.last_update <= b.last_update)
}

/// Insert `c` into the priority-sorted vector `v`, keeping it
/// sorted, after every element that ranks at least as high.
fn insert_candidate(v: &mut Vec<StaleCandidate>, c: StaleCandidate)
    ensures
        final(v)@ == spec_insert(old(v)@, c),
{
    let n = v.len();
    let mut j: usize = 0;
    while j < n && prio_geq_exec(v[j], c)
        invariant
            *v == *old(v),
            n == v@.len(),
            0 <= j <= n,
            forall|m: int| 0 <= m < j ==> prio_geq(v@[m], c),
            j < n ==> prio_geq(v@[j as int], c) || !prio_geq(v@[j as int], c),
        decreases n - j,
    {
        j += 1;
    }
    proof {
        lemma_spec_insert_at(v@, c, j as int);
    }
    v.insert(j, c);
    proof {
        assert(final(v)@ =~= old(v)@.insert(j as int, c));
    }
}

proof fn lemma_spec_insert_at(s: Seq<StaleCandidate>, c: StaleCandidate, j: int)
    requires
        0 <= j <= s.len(),
        forall|m: int| 0 <= m < j ==> prio_geq(s[m], c),
        j < s.len() ==> !prio_geq(s[j], c),
    ensures
        spec_insert(s, c) == s.insert(j, c),
    decreases j,
{
    if j == 0 {
        if s.len() == 0 {
            assert(spec_insert(s, c) =~= s.insert(0, c));
        } else {
            assert(seq![c] + s =~= s.insert(0, c));
        }
    } else {
        lemma_spec_insert_at(s.drop_first(), c, j - 1);
        assert(prio_geq(s[0], c));
        assert(seq![s[0]] + s.drop_first().insert(j - 1, c) =~= s.insert(j, c));
    }
}

/// Select the records a refresh cycle will re-fetch: those with
/// `last_update` older than `cutoff`, ordered by decayed score
/// descending with ties broken oldest first, capped at `limit`.
pub fn select_stale(store: &Store, cutoff: i64, limit: usize) -> (r: Vec<StaleCandidate>)
    ensures
        r@ == spec_selection(store@, cutoff, limit as int),
{
    let n = store.records.len();
    let mut cands: Vec<StaleCandidate> = Vec::new();
    let mut i: usize = 0;
    while i < n
        invariant
            n == store.records@.len(),
            store@.len() == n,
            0 <= i <= n,
            cands@ == stale_candidates(store@.take(i as int), cutoff),
            forall|j: int| 0 <= j < n ==> store@[j] == store.records@[j]@,
        decreases n - i,
    {
        let ghost prefix = store@.take(i as int);
        let rec = &store.records[i];
        if rec.last_update < cutoff {
            cands.push(StaleCandidate { id: rec.id, frecency: rec.frecency, last_update: rec.last_update });
        }
        proof {
            let longer = store@.take(i + 1 as int);
            assert(longer.drop_last() =~= prefix);
            assert(longer.last() == store@[i as int]);
        }
        i += 1;
    }
    proof {
        assert(store@.take(n as int) =~= store@);
    }
    let m = cands.len();
    let mut sorted: Vec<StaleCandidate> = Vec::new();
    let mut k: usize = 0;
    while k < m
        invariant
            m == cands@.len(),
            0 <= k <= m,
            sorted@ == spec_sort(cands@.take(k as int)),
        decreases m - k,
    {
        let ghost prefix = cands@.take(k as int);
        insert_candidate(&mut sorted, cands[k]);
        proof {
            let longer = cands@.take(k + 1 as int);
            assert(longer.drop_last() =~= prefix);
            assert(longer.last() == cands@[k as int]);
        }
        k += 1;
    }
    proof {
        assert(cands@.take(m as int) =~= cands@);
    }
    sorted.truncate(limit);
    sorted
}

/// A record's decayed weight has underflowed (its key is below the
/// translated epsilon floor), or its score still sits at its fresh
/// baseline with no access since the record was created.
pub open spec fn needs_floor(m: RecordModel, floor: i64) -> bool {
    m.frecency < floor || !m.accessed
}

/// The record with its score reset to the floor: a numerically
/// stable "near-zero activity, right now" state.
pub open spec fn floored(m: RecordModel, floor: i64) -> RecordModel {
    RecordModel {
        id: m.id,
        payload: m.payload,
        frecency: floor,
        accessed: m.accessed,
        last_update: m.last_update,
    }
}

/// Underflow normalization, run at the start of every refresh cycle
/// before selection: every record whose decayed weight lies below
/// the epsilon floor — `floor` is `ln(epsilon) + now_decay` in key
/// space — or whose score was never bumped is reset to the floor;
/// every other record is untouched.
pub fn normalize_frecency(store: &mut Store, floor: i64)
    requires
        old(store).wf(),
    ensures
        final(store).wf(),
        final(store)@.len() == old(store)@.len(),
        forall|j: int|
            0 <= j < old(store)@.len() ==> final(store)@[j] == (if needs_floor(
                old(store)@[j],
                floor,
            ) {
                floored(old(store)@[j], floor)
            } else {
                old(store)@[j]
            }),
{
    let n = store.records.len();
    let mut i: usize = 0;
    while i < n
        invariant
            n == store.records@.len(),
            store@.len() == n,
            old(store)@.len() == n,
            0 <= i <= n,
            forall|j: int|
                0 <= j < i ==> store@[j] == (if needs_floor(old(store)@[j], floor) {
                    floored(old(store)@[j], floor)
                } else {
                    old(store)@[j]
                }),
            forall|j: int| i <= j < n ==> store@[j] == old(store)@[j],
        decreases n - i,
    {
        let ghost before = store@;
        if store.records[i].frecency < floor || !store.records[i].accessed {
            let rec = store.records.remove(i);
            let upd = PersistedRecord {
                id: rec.id,
                payload: rec.payload,
                frecency: floor,
                accessed: rec.accessed,
                last_update: rec.last_update,
            };
            let ghost um = upd@;
            proof {
                assert(um == floored(before[i as int], floor));
            }
            store.records.insert(i, upd);
            proof {
                assert(store@ =~= before.update(i as int, um));
            }
        }
        i += 1;
    }
    proof {
        let s0 = old(store)@;
        let s1 = final(store)@;
        assert forall|p: int, q: int| 0 <= p < q < s1.len() implies s1[p].id != s1[q].id by {
            assert(s1[p].id == s0[p].id);
            assert(s1[q].id == s0[q].id);
        }
    }
}


/// The score a record carries after normalization at `floor`.
pub open spec fn normalized(m: RecordModel, floor: i64) -> RecordModel {
    if needs_floor(m, floor) {
        floored(m, floor)
    } else {
        m
    }
}

/// Law: normalization is idempotent — a second pass at the same
/// floor changes nothing.
pub proof fn lemma_normalize_idempotent(m: RecordModel, floor: i64)
    ensures
        normalized(normalized(m, floor), floor) == normalized(m, floor),
{
}

/// Law: normalization preserves relative ordering.  Untouched
/// records keep their exact scores, every floored record ends at the
/// common floor — so equally stale records stay equally ranked — and
/// no floored record ends above an untouched one.
pub proof fn lemma_normalize_order(a: RecordModel, b: RecordModel, floor: i64)
    ensures
        needs_floor(a, floor) && needs_floor(b, floor) ==> normalized(a, floor).frecency
            == normalized(b, floor).frecency,
        !needs_floor(a, floor) && !needs_floor(b, floor) ==> (normalized(a, floor).frecency
            <= normalized(b, floor).frecency <==> a.frecency <= b.frecency),
        needs_floor(a, floor) && !needs_floor(b, floor) ==> normalized(a, floor).frecency
            <= normalized(b, floor).frecency,
{
}

// What follows are the stated guarantees of the selection order:
// the sort ranks every element at least as high as each later one,
// and rearranges the stale candidates without adding, dropping, or
// altering any.


/// Law: what one cycle selects is sound and complete for its cap —
/// every selected candidate is a stale record, selection is ordered
/// by the staleness priority, and no stale record left unselected
/// ranks higher than any selected one.
pub proof fn lemma_selection_properties(s: Seq<RecordModel>, cutoff: i64, limit: int)
    requires
        limit >= 0,
    ensures
        forall|p: int, q: int|
            0 <= p < q < spec_selection(s, cutoff, limit).len() ==> prio_geq(
                spec_selection(s, cutoff, limit)[p],
                spec_selection(s, cutoff, limit)[q],
            ),
        forall|i: int|
            0 <= i < spec_selection(s, cutoff, limit).len() ==> stale_candidates(
                s,
                cutoff,
            ).contains(spec_selection(s, cutoff, limit)[i]),
        forall|x: StaleCandidate|
            stale_candidates(s, cutoff).contains(x) && !spec_selection(s, cutoff, limit).contains(
                x,
            ) ==> forall|i: int|
                0 <= i < spec_selection(s, cutoff, limit).len() ==> prio_geq(
                    #[trigger] spec_selection(s, cutoff, limit)[i],
                    x,
                ),
{
    let stale = stale_candidates(s, cutoff);
    let sorted = spec_sort(stale);
    let sel = spec_selection(s, cutoff, limit);
    lemma_sort_sorted(stale);
    lemma_sort_permutes(stale);
    stale.to_multiset_ensures();
    sorted.to_multiset_ensures();
    assert forall|i: int| 0 <= i < sel.len() implies stale.contains(sel[i]) by {
        assert(sorted.contains(sorted[i]));
        assert(stale.to_multiset().count(sel[i]) > 0);
    }
    assert forall|x: StaleCandidate|
        stale.contains(x) && !sel.contains(x) implies forall|i: int|
            0 <= i < sel.len() ==> prio_geq(#[trigger] sel[i], x) by {
        assert(sorted.to_multiset().count(x) > 0);
        assert(sorted.contains(x));
        let k = choose|k: int| 0 <= k < sorted.len() && sorted[k] == x;
        assert(k >= sel.len()) by {
            if k < sel.len() {
                assert(sel[k] == x);
                assert(sel.contains(x));
            }
        }
        assert forall|i: int| 0 <= i < sel.len() implies prio_geq(#[trigger] sel[i], x) by {
            assert(prio_geq(sorted[i], sorted[k]));
        }
    }
}

/// Inserting into a priority-sorted sequence keeps it sorted.
proof fn lemma_insert_sorted(s: Seq<StaleCandidate>, c: StaleCandidate)
    requires
        forall|p: int, q: int| 0 <= p < q < s.len() ==> prio_geq(s[p], s[q]),
    ensures
        forall|p: int, q: int|
            0 <= p < q < spec_insert(s, c).len() ==> prio_geq(spec_insert(s, c)[p], spec_insert(s, c)[q]),
    decreases s.len(),
{
    if s.len() == 0 {
    } else if prio_geq(s[0], c) {
        assert(forall|p: int, q: int|
            0 <= p < q < s.drop_first().len() ==> prio_geq(s.drop_first()[p], s.drop_first()[q]));
        lemma_insert_sorted(s.drop_first(), c);
        let t = seq![s[0]] + spec_insert(s.drop_first(), c);
        assert forall|p: int, q: int| 0 <= p < q < t.len() implies prio_geq(t[p], t[q]) by {
            if p == 0 {
                lemma_insert_head_bound(s.drop_first(), c, s[0], q - 1);
            } else {
                assert(prio_geq(
                    spec_insert(s.drop_first(), c)[p - 1],
                    spec_insert(s.drop_first(), c)[q - 1],
                ));
            }
        }
    } else {
        let t = seq![c] + s;
        assert forall|p: int, q: int| 0 <= p < q < t.len() implies prio_geq(t[p], t[q]) by {
            if p == 0 {
                if q == 1 {
                    assert(!prio_geq(s[0], c));
                } else {
                    assert(prio_geq(s[0], s[q - 1]));
                    assert(!prio_geq(s[0], c));
                }
            }
        }
    }
}

/// Every element of `spec_insert(s, c)` is `c` or drawn from `s`;
/// used to bound the head comparison in the sortedness proof.
proof fn lemma_insert_head_bound(s: Seq<StaleCandidate>, c: StaleCandidate, h: StaleCandidate, q: int)
    requires
        0 <= q < spec_insert(s, c).len(),
        prio_geq(h, c),
        forall|m: int| 0 <= m < s.len() ==> prio_geq(h, s[m]),
    ensures
        prio_geq(h, spec_insert(s, c)[q]),
    decreases s.len(),
{
    if s.len() == 0 {
    } else if prio_geq(s[0], c) {
        if q > 0 {
            assert(forall|m: int|
                0 <= m < s.drop_first().len() ==> prio_geq(h, s.drop_first()[m]));
            lemma_insert_head_bound(s.drop_first(), c, h, q - 1);
        }
    } else {
        if q > 0 {
            assert(spec_insert(s, c)[q] == s[q - 1]);
        }
    }
}

/// The sort output is ordered by the staleness priority: every
/// element ranks at least as high as each element after it.
pub proof fn lemma_sort_sorted(s: Seq<StaleCandidate>)
    ensures
        forall|p: int, q: int|
            0 <= p < q < spec_sort(s).len() ==> prio_geq(spec_sort(s)[p], spec_sort(s)[q]),
    decreases s.len(),
{
    if s.len() > 0 {
        lemma_sort_sorted(s.drop_last());
        lemma_insert_sorted(spec_sort(s.drop_last()), s.last());
    }
}

/// The sort output holds exactly the input candidates: the same
/// multiset, so nothing is added, dropped, or altered.
pub proof fn lemma_sort_permutes(s: Seq<StaleCandidate>)
    ensures
        spec_sort(s).to_multiset() == s.to_multiset(),
    decreases s.len(),
{
    if s.len() == 0 {
        assert(spec_sort(s) =~= s);
    } else {
        lemma_sort_permutes(s.drop_last());
        lemma_insert_multiset(spec_sort(s.drop_last()), s.last());
        assert(s.drop_last().push(s.last()) =~= s);
        s.drop_last().to_multiset_ensures();
        assert(s.drop_last().push(s.last()).to_multiset() == s.drop_last().to_multiset().insert(
            s.last(),
        ));
    }
}

proof fn lemma_insert_multiset(s: Seq<StaleCandidate>, c: StaleCandidate)
    ensures
        spec_insert(s, c).to_multiset() == s.to_multiset().insert(c),
    decreases s.len(),
{
    s.to_multiset_ensures();
    if s.len() == 0 {
        assert(seq![c] =~= Seq::<StaleCandidate>::empty().push(c));
        Seq::<StaleCandidate>::empty().to_multiset_ensures();
    } else if prio_geq(s[0], c) {
        lemma_insert_multiset(s.drop_first(), c);
        let t = seq![s[0]] + spec_insert(s.drop_first(), c);
        lemma_cons_multiset(s[0], spec_insert(s.drop_first(), c));
        lemma_cons_multiset(s[0], s.drop_first());
        assert(seq![s[0]] + s.drop_first() =~= s);
        assert(t.to_multiset() == spec_insert(s.drop_first(), c).to_multiset().insert(s[0]));
        assert(spec_insert(s.drop_first(), c).to_multiset() == s.drop_first().to_multiset().insert(
            c,
        ));
        assert(s.to_multiset() == s.drop_first().to_multiset().insert(s[0]));
        assert(s.drop_first().to_multiset().insert(c).insert(s[0])
            == s.drop_first().to_multiset().insert(s[0]).insert(c)) by {
            lemma_multiset_insert_comm(s.drop_first().to_multiset(), c, s[0]);
        }
    } else {
        lemma_cons_multiset(c, s);
    }
}

/// Prepending one element inserts it into the multiset.
proof fn lemma_cons_multiset(c: StaleCandidate, s: Seq<StaleCandidate>)
    ensures
        (seq![c] + s).to_multiset() == s.to_multiset().insert(c),
    decreases s.len(),
{
    if s.len() == 0 {
        assert(seq![c] + s =~= Seq::<StaleCandidate>::empty().push(c));
        Seq::<StaleCandidate>::empty().to_multiset_ensures();
        assert(s =~= Seq::<StaleCandidate>::empty());
    } else {
        lemma_cons_multiset(c, s.drop_last());
        let t = seq![c] + s;
        assert(t =~= (seq![c] + s.drop_last()).push(s.last()));
        (seq![c] + s.drop_last()).to_multiset_ensures();
        s.to_multiset_ensures();
        assert(s =~= s.drop_last().push(s.last()));
        s.drop_last().to_multiset_ensures();
        assert(t.to_multiset() == (seq![c] + s.drop_last()).to_multiset().insert(s.last()));
        assert(s.to_multiset() == s.drop_last().to_multiset().insert(s.last()));
        lemma_multiset_insert_comm(s.drop_last().to_multiset(), c, s.last());
    }
}

proof fn lemma_multiset_insert_comm(
    m: Multiset<StaleCandidate>,
    a: StaleCandidate,
    b: StaleCandidate,
)
    ensures
        m.insert(a).insert(b) == m.insert(b).insert(a),
{
    assert(m.insert(a).insert(b) =~= m.insert(b).insert(a));
}

} // verus!
