//! The durable store: one persisted record per resource id.
//!
//! A record is created once by the worker on the first successful
//! fetch.  Its payload and `last_update` are rewritten by the worker
//! and by the refresh engine; its frecency order key is rewritten by
//! the resolver on every read hit and by the normalization pass.
//! Records are never deleted, and at most one record exists per id.
//!
//! The frecency score itself is a log-space floating-point value
//! owned by the process shell; the store holds an order-preserving
//! integer key for it, which is all the selection and normalization
//! logic ever reads.

use vstd::prelude::*;

verus! {

/// Mathematical value of a persisted record.
pub ghost struct RecordModel {
    pub id: u64,
    pub payload: Seq<u8>,
    pub frecency: i64,
    pub accessed: bool,
    pub last_update: i64,
}

pub struct PersistedRecord {
    /// Externally supplied, immutable resource id.
    pub id: u64,
    /// Opaque serialized blob.
    pub payload: Vec<u8>,
    /// Order-preserving key of the log-space frecency score.
    pub frecency: i64,
    /// Whether the resolver has bumped the score since the record was
    /// created, i.e. whether `frecency` has left its fresh baseline.
    pub accessed: bool,
    /// Unix seconds of the last successful fetch for this record.
    pub last_update: i64,
}

impl View for PersistedRecord {
    type V = RecordModel;

    open spec fn view(&self) -> RecordModel {
        RecordModel {
            id: self.id,
            payload: self.payload@,
            frecency: self.frecency,
            accessed: self.accessed,
            last_update: self.last_update,
        }
    }
}

/// The record a read hit leaves behind: same payload and timestamp,
/// the recomputed score, and the access marked.
pub open spec fn rescored(m: RecordModel, score: i64) -> RecordModel {
    RecordModel {
        id: m.id,
        payload: m.payload,
        frecency: score,
        accessed: true,
        last_update: m.last_update,
    }
}

/// The record a background refresh leaves behind: new payload and
/// timestamp, the access-frequency signal untouched.
pub open spec fn refreshed(m: RecordModel, payload: Seq<u8>, now: i64) -> RecordModel {
    RecordModel {
        id: m.id,
        payload: payload,
        frecency: m.frecency,
        accessed: m.accessed,
        last_update: now,
    }
}

/// The first record carrying `id`, reading the sequence in order; in
/// a well-formed store the only one.
pub open spec fn record_of(s: Seq<RecordModel>, id: u64) -> Option<RecordModel>
    decreases s.len(),
{
    if s.len() == 0 {
        None
    } else if s[0].id == id {
        Some(s[0])
    } else {
        record_of(s.drop_first(), id)
    }
}

pub struct Store {
    pub records: Vec<PersistedRecord>,
}

impl View for Store {
    type V = Seq<RecordModel>;

    open spec fn view(&self) -> Seq<RecordModel> {
        self.records@.map_values(|r: PersistedRecord| r@)
    }
}

impl Store {
    /// Well-formedness: at most one record per id.
    pub open spec fn wf(self) -> bool {
        forall|i: int, j: int| 0 <= i < j < self@.len() ==> self@[i].id != self@[j].id
    }

    pub fn new() -> (s: Store)
        ensures
            s.wf(),
            s@ =~= Seq::<RecordModel>::empty(),
    {
        Store { records: Vec::new() }
    }

    /// Index of the record for `id`, if the store holds one.
    pub fn find(&self, id: u64) -> (r: Option<usize>)
        requires
            self.wf(),
        ensures
            match r {
                Some(i) => i < self@.len() && self@[i as int].id == id && record_of(self@, id)
                    == Some(self@[i as int]),
                None => record_of(self@, id) is None,
            },
    {
        let n = self.records.len();
        let mut i: usize = 0;
        while i < n
            invariant
                n == self.records@.len(),
                self@.len() == self.records@.len(),
                0 <= i <= n,
                forall|j: int| 0 <= j < i ==> self@[j].id != id,
                forall|j: int| 0 <= j < n ==> self@[j] == self.records@[j]@,
            decreases n - i,
        {
            if self.records[i].id == id {
                proof {
                    lemma_record_of_found(self@, id, i as int);
                }
                return Some(i);
            }
            i += 1;
        }
        proof {
            lemma_record_of_none(self@, id);
        }
        None
    }

    /// Insert `rec` unless a record with its id already exists, in
    /// which case nothing changes; a concurrent duplicate insert must
    /// not error or duplicate the row.
    pub fn insert_if_absent(&mut self, rec: PersistedRecord) -> (added: bool)
        requires
            old(self).wf(),
        ensures
            final(self).wf(),
            added == (record_of(old(self)@, rec.id) is None),
            added ==> final(self)@ == old(self)@.push(rec@),
            !added ==> *final(self) == *old(self),
            record_of(final(self)@, rec.id) is Some,
    {
        let ghost m = rec@;
        match self.find(rec.id) {
            Some(_) => false,
            None => {
                self.records.push(rec);
                proof {
                    let s1 = final(self)@;
                    assert(s1 =~= old(self)@.push(m));
                    lemma_record_of_push(old(self)@, m);
                    assert forall|i: int, j: int| 0 <= i < j < s1.len() implies s1[i].id
                        != s1[j].id by {
                        if j == s1.len() - 1 {
                            if s1[i].id == m.id {
                                lemma_record_of_found(old(self)@, m.id, i);
                            }
                        }
                    }
                }
                true
            },
        }
    }

    /// Record a read hit: store the recomputed frecency key for `id`
    /// and mark the record as accessed.  Returns whether a record for
    /// `id` was found.
    pub fn update_frecency(&mut self, id: u64, score: i64) -> (found: bool)
        requires
            old(self).wf(),
        ensures
            final(self).wf(),
            found == (record_of(old(self)@, id) is Some),
            final(self)@.len() == old(self)@.len(),
            forall|j: int|
                0 <= j < old(self)@.len() ==> final(self)@[j] == (if old(self)@[j].id == id {
                    rescored(old(self)@[j], score)
                } else {
                    old(self)@[j]
                }),
    {
        match self.find(id) {
            None => {
                proof {
                    lemma_record_of_absent(self@, id);
                }
                false
            },
            Some(i) => {
                let rec = self.records.remove(i);
                let upd = PersistedRecord {
                    id: rec.id,
                    payload: rec.payload,
                    frecency: score,
                    accessed: true,
                    last_update: rec.last_update,
                };
                let ghost up = upd@;
                proof {
                    assert(up == rescored(old(self)@[i as int], score));
                }
                self.records.insert(i, upd);
                proof {
                    let s0 = old(self)@;
                    let s1 = final(self)@;
                    assert(s1 =~= s0.update(i as int, up));
                    assert forall|j: int| 0 <= j < s0.len() implies s1[j] == (if s0[j].id == id {
                        rescored(s0[j], score)
                    } else {
                        s0[j]
                    }) by {
                        if j != i {
                            assert(s0[j].id != s0[i as int].id);
                        }
                    }
                    lemma_pointwise_update(s0, s1, i as int, id);
                }
                true
            },
        }
    }

    /// Overwrite the payload and `last_update` of the record for
    /// `id`, leaving the access-frequency signal untouched.  Returns
    /// whether a record for `id` was found.
    pub fn update_payload(&mut self, id: u64, payload: Vec<u8>, now: i64) -> (found: bool)
        requires
            old(self).wf(),
        ensures
            final(self).wf(),
            found == (record_of(old(self)@, id) is Some),
            final(self)@.len() == old(self)@.len(),
            forall|j: int|
                0 <= j < old(self)@.len() ==> final(self)@[j] == (if old(self)@[j].id == id {
                    refreshed(old(self)@[j], payload@, now)
                } else {
                    old(self)@[j]
                }),
    {
        match self.find(id) {
            None => {
                proof {
                    lemma_record_of_absent(self@, id);
                }
                false
            },
            Some(i) => {
                let rec = self.records.remove(i);
                let upd = PersistedRecord {
                    id: rec.id,
                    payload: payload,
                    frecency: rec.frecency,
                    accessed: rec.accessed,
                    last_update: now,
                };
                let ghost up = upd@;
                proof {
                    assert(up == refreshed(old(self)@[i as int], up.payload, now));
                }
                self.records.insert(i, upd);
                proof {
                    let s0 = old(self)@;
                    let s1 = final(self)@;
                    assert(s1 =~= s0.update(i as int, up));
                    assert forall|j: int| 0 <= j < s0.len() implies s1[j] == (if s0[j].id == id {
                        refreshed(s0[j], up.payload, now)
                    } else {
                        s0[j]
                    }) by {
                        if j != i {
                            assert(s0[j].id != s0[i as int].id);
                        }
                    }
                    lemma_pointwise_update(s0, s1, i as int, id);
                }
                true
            },
        }
    }
}

proof fn lemma_record_of_found(s: Seq<RecordModel>, id: u64, i: int)
    requires
        0 <= i < s.len(),
        s[i].id == id,
        forall|j: int| 0 <= j < i ==> s[j].id != id,
    ensures
        record_of(s, id) == Some(s[i]),
    decreases i,
{
    if i > 0 {
        lemma_record_of_found(s.drop_first(), id, i - 1);
    }
}

/// The converse direction: a failed lookup rules out a match at
/// every index.
proof fn lemma_record_of_absent(s: Seq<RecordModel>, id: u64)
    requires
        record_of(s, id) is None,
    ensures
        forall|j: int| 0 <= j < s.len() ==> s[j].id != id,
    decreases s.len(),
{
    if s.len() > 0 {
        lemma_record_of_absent(s.drop_first(), id);
        assert forall|j: int| 0 <= j < s.len() implies s[j].id != id by {
            if j > 0 {
                assert(s.drop_first()[j - 1].id != id);
            }
        }
    }
}

proof fn lemma_record_of_none(s: Seq<RecordModel>, id: u64)
    requires
        forall|j: int| 0 <= j < s.len() ==> s[j].id != id,
    ensures
        record_of(s, id) is None,
    decreases s.len(),
{
    if s.len() > 0 {
        lemma_record_of_none(s.drop_first(), id);
    }
}

proof fn lemma_record_of_push(s: Seq<RecordModel>, m: RecordModel)
    ensures
        record_of(s, m.id) is None ==> record_of(s.push(m), m.id) == Some(m),
        forall|x: u64| x != m.id ==> #[trigger] record_of(s.push(m), x) == record_of(s, x),
    decreases s.len(),
{
    if s.len() == 0 {
        assert(s.push(m).drop_first() =~= s);
    } else {
        lemma_record_of_push(s.drop_first(), m);
        assert(s.push(m).drop_first() =~= s.drop_first().push(m));
        assert forall|x: u64| x != m.id implies #[trigger] record_of(s.push(m), x) == record_of(
            s,
            x,
        ) by {
            if s[0].id != x {
                assert(record_of(s.drop_first().push(m), x) == record_of(s.drop_first(), x));
            }
        }
    }
}

/// A store whose sequence of models changed only at index `i`, where
/// the id was kept, stays well-formed and is updated pointwise.
proof fn lemma_pointwise_update(s0: Seq<RecordModel>, s1: Seq<RecordModel>, i: int, id: u64)
    requires
        forall|p: int, q: int| 0 <= p < q < s0.len() ==> s0[p].id != s0[q].id,
        0 <= i < s0.len(),
        s0[i].id == id,
        s1.len() == s0.len(),
        s1[i].id == id,
        forall|j: int| 0 <= j < s0.len() && j != i ==> s1[j] == s0[j],
    ensures
        forall|p: int, q: int| 0 <= p < q < s1.len() ==> s1[p].id != s1[q].id,
{
    assert forall|p: int, q: int| 0 <= p < q < s1.len() implies s1[p].id != s1[q].id by {
        assert(s1[p].id == s0[p].id);
        assert(s1[q].id == s0[q].id);
    }
}

} // verus!
