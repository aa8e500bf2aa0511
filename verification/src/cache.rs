//! The ephemeral cache: a key/value store with a per-entry TTL.
//!
//! Keys are composites of resource kind, id, and a parameter digest
//! for search-style lookups.  A value is either a cached payload (a
//! successful on-demand fetch not yet durably stored) or a recorded
//! absence (the negative cache, which suppresses re-enqueueing
//! lookups that upstream has confirmed not found).  `put` always
//! overwrites both value and TTL; entries self-expire and are never
//! evicted by hand — an expired entry simply stops answering.

use vstd::prelude::*;

verus! {

/// The resource kinds the service resolves, each with its own key
/// space.
#[derive(Clone, Copy, PartialEq, Eq, Structural, Debug)]
pub enum ResourceKind {
    Character,
    FreeCompany,
    Linkshell,
    CharacterSearch,
    FreeCompanySearch,
    LinkshellSearch,
}

/// Composite cache key: resource kind + id (+ a digest of the query
/// parameters for search-style lookups; zero where there are none).
#[derive(Clone, Copy, PartialEq, Eq, Structural, Debug)]
pub struct CacheKey {
    pub kind: ResourceKind,
    pub id: u64,
    pub params: u64,
}

/// Mathematical value of a cache value.
pub ghost enum CacheValueModel {
    Payload(Seq<u8>),
    NotFound,
}

/// What a cache entry records: a serialized payload, or a confirmed
/// absence (the negative cache).
pub enum CacheValue {
    Payload(Vec<u8>),
    NotFound,
}

impl View for CacheValue {
    type V = CacheValueModel;

    open spec fn view(&self) -> CacheValueModel {
        match self {
            CacheValue::Payload(v) => CacheValueModel::Payload(v@),
            CacheValue::NotFound => CacheValueModel::NotFound,
        }
    }
}

/// Copy a byte vector; the copy holds the same bytes.
pub fn clone_bytes(v: &Vec<u8>) -> (r: Vec<u8>)
    ensures
        r@ == v@,
{
    let r = v.clone();
    proof {
        assert(r@ =~= v@);
    }
    r
}

impl CacheValue {
    /// A copy with the same mathematical value.
    pub fn duplicate(&self) -> (r: CacheValue)
        ensures
            r@ == self@,
    {
        match self {
            CacheValue::Payload(v) => CacheValue::Payload(clone_bytes(v)),
            CacheValue::NotFound => CacheValue::NotFound,
        }
    }
}

/// Mathematical value of a cache entry.
pub ghost struct EntryModel {
    pub key: CacheKey,
    pub value: CacheValueModel,
    pub expires_at_ms: i64,
}

pub struct CacheEntry {
    pub key: CacheKey,
    pub value: CacheValue,
    /// Unix milliseconds at which the entry stops answering.
    pub expires_at_ms: i64,
}

impl View for CacheEntry {
    type V = EntryModel;

    open spec fn view(&self) -> EntryModel {
        EntryModel { key: self.key, value: self.value@, expires_at_ms: self.expires_at_ms }
    }
}

/// The first entry stored under `key`, reading the sequence in
/// order; in a well-formed cache the only one.
pub open spec fn entry_of(s: Seq<EntryModel>, key: CacheKey) -> Option<EntryModel>
    decreases s.len(),
{
    if s.len() == 0 {
        None
    } else if s[0].key == key {
        Some(s[0])
    } else {
        entry_of(s.drop_first(), key)
    }
}

/// What a read under `key` at time `now_ms` answers: the stored
/// value and the remaining time to live, or nothing when no entry is
/// stored or the stored entry has expired.
pub open spec fn live_entry(s: Seq<EntryModel>, key: CacheKey, now_ms: i64) -> Option<
    (CacheValueModel, i64),
> {
    match entry_of(s, key) {
        Some(e) => if e.expires_at_ms > now_ms {
            Some((e.value, (e.expires_at_ms - now_ms) as i64))
        } else {
            None
        },
        None => None,
    }
}

pub struct TtlCache {
    pub entries: Vec<CacheEntry>,
}

impl View for TtlCache {
    type V = Seq<EntryModel>;

    open spec fn view(&self) -> Seq<EntryModel> {
        self.entries@.map_values(|e: CacheEntry| e@)
    }
}

impl TtlCache {
    /// Well-formedness: at most one entry per key, and no expiry
    /// stamp lies before the epoch.
    pub open spec fn wf(self) -> bool {
        &&& forall|i: int, j: int| 0 <= i < j < self@.len() ==> self@[i].key != self@[j].key
        &&& forall|i: int| 0 <= i < self@.len() ==> self@[i].expires_at_ms >= 0
    }

    pub fn new() -> (c: TtlCache)
        ensures
            c.wf(),
            c@ =~= Seq::<EntryModel>::empty(),
    {
        TtlCache { entries: Vec::new() }
    }

    /// Read the entry under `key`: its value and its remaining time
    /// to live in milliseconds, or `None` when nothing unexpired is
    /// stored there.
    pub fn get(&self, key: CacheKey, now_ms: i64) -> (r: Option<(CacheValue, i64)>)
        requires
            self.wf(),
            now_ms >= 0,
        ensures
            match r {
                Some((v, rem)) => live_entry(self@, key, now_ms) == Some((v@, rem)),
                None => live_entry(self@, key, now_ms) is None,
            },
    {
        let n = self.entries.len();
        let mut i: usize = 0;
        while i < n
            invariant
                self.wf(),
                now_ms >= 0,
                n == self.entries@.len(),
                self@.len() == n,
                0 <= i <= n,
                forall|j: int| 0 <= j < i ==> self@[j].key != key,
                forall|j: int| 0 <= j < n ==> self@[j] == self.entries@[j]@,
            decreases n - i,
        {
            if self.entries[i].key == key {
                proof {
                    lemma_entry_of_found(self@, key, i as int);
                }
                if self.entries[i].expires_at_ms > now_ms {
                    let rem = self.entries[i].expires_at_ms - now_ms;
                    return Some((self.entries[i].value.duplicate(), rem));
                } else {
                    return None;
                }
            }
            i += 1;
        }
        proof {
            lemma_entry_of_none(self@, key);
        }
        None
    }

    /// Drop the entry under `key`, if any; every other key keeps
    /// its entry.
    fn evict(&mut self, key: CacheKey)
        requires
            old(self).wf(),
        ensures
            final(self).wf(),
            entry_of(final(self)@, key) is None,
            forall|k: CacheKey|
                k != key ==> #[trigger] entry_of(final(self)@, k) == entry_of(old(self)@, k),
    {
        let n = self.entries.len();
        let mut i: usize = 0;
        while i < n
            invariant
                old(self).wf(),
                *self == *old(self),
                n == self.entries@.len(),
                self@.len() == n,
                0 <= i <= n,
                forall|j: int| 0 <= j < i ==> self@[j].key != key,
            decreases n - i,
        {
            if self.entries[i].key == key {
                self.entries.remove(i);
                proof {
                    let s0 = old(self)@;
                    let s1 = final(self)@;
                    assert(s1 =~= s0.remove(i as int));
                    lemma_entry_of_remove(s0, key, i as int);
                    assert forall|p: int, q: int| 0 <= p < q < s1.len() implies s1[p].key
                        != s1[q].key by {
                        let p0: int = if p < i {
                            p
                        } else {
                            p + 1
                        };
                        let q0: int = if q < i {
                            q
                        } else {
                            q + 1
                        };
                        assert(s1[p] == s0[p0]);
                        assert(s1[q] == s0[q0]);
                    }
                    assert forall|j: int| 0 <= j < s1.len() implies s1[j].expires_at_ms >= 0 by {
                        if j < i {
                            assert(s1[j] == s0[j]);
                        } else {
                            assert(s1[j] == s0[j + 1]);
                        }
                    }
                }
                return ;
            }
            i += 1;
        }
        proof {
            lemma_entry_of_none(self@, key);
        }
    }

    /// Store `value` under `key` with a fresh TTL, overwriting any
    /// previous entry whole — no extension semantics.  Every other
    /// key keeps its entry.
    pub fn put(&mut self, key: CacheKey, value: CacheValue, ttl_secs: i64, now_ms: i64)
        requires
            old(self).wf(),
            0 <= now_ms <= 100_000_000_000_000,
            0 < ttl_secs <= 1_000_000_000,
        ensures
            final(self).wf(),
            entry_of(final(self)@, key) == Some(
                EntryModel {
                    key: key,
                    value: value@,
                    expires_at_ms: (now_ms + ttl_secs * 1000) as i64,
                },
            ),
            forall|k: CacheKey|
                k != key ==> #[trigger] entry_of(final(self)@, k) == entry_of(old(self)@, k),
    {
        let expires_at_ms = now_ms + ttl_secs * 1000;
        self.evict(key);
        let ghost mid = self@;
        let entry = CacheEntry { key, value, expires_at_ms };
        let ghost em = entry@;
        proof {
            lemma_entry_of_absent(mid, key);
            lemma_entry_of_push(mid, em);
        }
        self.entries.push(entry);
        proof {
            let s1 = final(self)@;
            assert(s1 =~= mid.push(em));
            assert forall|p: int, q: int| 0 <= p < q < s1.len() implies s1[p].key != s1[q].key by {
                if q == s1.len() - 1 {
                    assert(mid[p].key != key);
                }
            }
        }
    }
}

/// The converse direction: a failed lookup rules out a match at
/// every index.
proof fn lemma_entry_of_absent(s: Seq<EntryModel>, key: CacheKey)
    requires
        entry_of(s, key) is None,
    ensures
        forall|j: int| 0 <= j < s.len() ==> s[j].key != key,
    decreases s.len(),
{
    if s.len() > 0 {
        lemma_entry_of_absent(s.drop_first(), key);
        assert forall|j: int| 0 <= j < s.len() implies s[j].key != key by {
            if j > 0 {
                assert(s.drop_first()[j - 1].key != key);
            }
        }
    }
}

proof fn lemma_entry_of_found(s: Seq<EntryModel>, key: CacheKey, i: int)
    requires
        0 <= i < s.len(),
        s[i].key == key,
        forall|j: int| 0 <= j < i ==> s[j].key != key,
    ensures
        entry_of(s, key) == Some(s[i]),
    decreases i,
{
    if i > 0 {
        lemma_entry_of_found(s.drop_first(), key, i - 1);
    }
}

proof fn lemma_entry_of_none(s: Seq<EntryModel>, key: CacheKey)
    requires
        forall|j: int| 0 <= j < s.len() ==> s[j].key != key,
    ensures
        entry_of(s, key) is None,
    decreases s.len(),
{
    if s.len() > 0 {
        lemma_entry_of_none(s.drop_first(), key);
    }
}

proof fn lemma_entry_of_push(s: Seq<EntryModel>, m: EntryModel)
    ensures
        entry_of(s, m.key) is None ==> entry_of(s.push(m), m.key) == Some(m),
        forall|k: CacheKey| k != m.key ==> #[trigger] entry_of(s.push(m), k) == entry_of(s, k),
    decreases s.len(),
{
    if s.len() == 0 {
        assert(s.push(m).drop_first() =~= s);
    } else {
        lemma_entry_of_push(s.drop_first(), m);
        assert(s.push(m).drop_first() =~= s.drop_first().push(m));
        assert forall|k: CacheKey| k != m.key implies #[trigger] entry_of(s.push(m), k)
            == entry_of(s, k) by {
            if s[0].key != k {
                assert(entry_of(s.drop_first().push(m), k) == entry_of(s.drop_first(), k));
            }
        }
    }
}

/// Removing the only entry under `key` erases it and keeps every
/// other key's entry.
proof fn lemma_entry_of_remove(s: Seq<EntryModel>, key: CacheKey, i: int)
    requires
        0 <= i < s.len(),
        s[i].key == key,
        forall|p: int, q: int| 0 <= p < q < s.len() ==> s[p].key != s[q].key,
    ensures
        entry_of(s.remove(i), key) is None,
        forall|k: CacheKey|
            k != key ==> #[trigger] entry_of(s.remove(i), k) == entry_of(s, k),
    decreases s.len(),
{
    assert forall|j: int| 0 <= j < s.remove(i).len() implies s.remove(i)[j].key != key by {
        if j < i {
            assert(s.remove(i)[j] == s[j]);
        } else {
            assert(s.remove(i)[j] == s[j + 1]);
        }
    }
    lemma_entry_of_none(s.remove(i), key);
    if i == 0 {
        assert(s.remove(0) =~= s.drop_first());
        assert forall|k: CacheKey| k != key implies #[trigger] entry_of(s.remove(i), k)
            == entry_of(s, k) by {
            assert(entry_of(s, k) == entry_of(s.drop_first(), k));
        }
    } else {
        lemma_entry_of_remove(s.drop_first(), key, i - 1);
        assert(s.remove(i).drop_first() =~= s.drop_first().remove(i - 1));
        assert(s.remove(i)[0] == s[0]);
        assert forall|k: CacheKey| k != key implies #[trigger] entry_of(s.remove(i), k)
            == entry_of(s, k) by {
            if s[0].key != k {
                assert(entry_of(s.drop_first().remove(i - 1), k) == entry_of(s.drop_first(), k));
            }
        }
    }
}

} // verus!
