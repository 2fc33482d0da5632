//! An in-memory map from string keys to string values in which every
//! entry carries the time it was written and a time-to-live.  An entry
//! is logically absent once its age has reached its time-to-live; it is
//! physically removed by the cleanup pass that every lookup begins with.
//!
//! Time is measured in whole milliseconds on a scale private to each
//! cache: the origin is the instant the cache was created.  The
//! operations that read the clock (`get`, `set`) are thin shells over
//! time-explicit operations (`get_at`, `set_at`, proved exactly), since
//! nothing can be promised of the clock reading itself.

use vstd::prelude::*;

use crate::clock;

verus! {

/// The mathematical image of one stored entry: its value, the
/// millisecond timestamp of the write that created it, and its
/// time-to-live in milliseconds.
pub ghost struct EntryInfo {
    pub value: Seq<char>,
    pub inserted_at: int,
    pub ttl_ms: int,
}

/// One stored entry.
struct Entry {
    key: String,
    value: String,
    inserted_at: u64,
    ttl_ms: u64,
}

/// A key-value store with per-entry expiration.  Its model is a map
/// from key to [`EntryInfo`].
pub struct Cache {
    entries: Vec<Entry>,
    epoch: std::time::Instant,
}

spec fn info_of(e: Entry) -> EntryInfo {
    EntryInfo { value: e.value@, inserted_at: e.inserted_at as int, ttl_ms: e.ttl_ms as int }
}

spec fn kv_map(s: Seq<Entry>) -> Map<Seq<char>, EntryInfo>
    decreases s.len(),
{
    if s.len() == 0 {
        Map::empty()
    } else {
        kv_map(s.drop_last()).insert(s.last().key@, info_of(s.last()))
    }
}

/// Keys are pairwise distinct, so each key names one entry.
spec fn unique_keys(s: Seq<Entry>) -> bool {
    forall|i: int, j: int| 0 <= i < j < s.len() ==> s[i].key@ != s[j].key@
}

/// The entry for `k` is live at time `now`: its age is still below its
/// time-to-live.
pub open spec fn spec_live(e: EntryInfo, now: int) -> bool {
    now < e.inserted_at + e.ttl_ms
}

/// The time-to-live stored for a request of `ttl_secs` whole seconds:
/// that many milliseconds, clamped to `u64::MAX`.
pub open spec fn spec_ttl_ms(ttl_secs: int) -> int {
    if ttl_secs * 1000 <= u64::MAX { ttl_secs * 1000 } else { u64::MAX as int }
}

/// The model after `set(k, v, ttl_secs)` performed at time `t0`.
pub open spec fn spec_set(
    m: Map<Seq<char>, EntryInfo>,
    k: Seq<char>,
    v: Seq<char>,
    t0: int,
    ttl_secs: int,
) -> Map<Seq<char>, EntryInfo> {
    m.insert(k, EntryInfo { value: v, inserted_at: t0, ttl_ms: spec_ttl_ms(ttl_secs) })
}

/// The model after a cleanup pass at time `now`: exactly the live
/// entries remain, unchanged.
pub open spec fn spec_cleanup(m: Map<Seq<char>, EntryInfo>, now: int) -> Map<
    Seq<char>,
    EntryInfo,
> {
    Map::new(|k: Seq<char>| m.contains_key(k) && spec_live(m[k], now), |k: Seq<char>| m[k])
}

/// What a lookup of `k` at time `now` returns: the stored value while
/// the entry is live, absence otherwise.
pub open spec fn spec_lookup(m: Map<Seq<char>, EntryInfo>, k: Seq<char>, now: int) -> Option<
    Seq<char>,
> {
    if m.contains_key(k) && spec_live(m[k], now) {
        Some(m[k].value)
    } else {
        None
    }
}

impl View for Cache {
    type V = Map<Seq<char>, EntryInfo>;

    closed spec fn view(&self) -> Map<Seq<char>, EntryInfo> {
        kv_map(self.entries@)
    }
}

proof fn lemma_kv_map_contains(s: Seq<Entry>, k: Seq<char>)
    ensures
        kv_map(s).contains_key(k) <==> exists|i: int| 0 <= i < s.len() && s[i].key@ == k,
    decreases s.len(),
{
    if s.len() > 0 {
        lemma_kv_map_contains(s.drop_last(), k);
        if s.last().key@ == k {
            assert(s[s.len() - 1].key@ == k);
        } else if kv_map(s).contains_key(k) {
            let i = choose|i: int| 0 <= i < s.drop_last().len() && s.drop_last()[i].key@ == k;
            assert(s[i].key@ == k);
        } else if exists|i: int| 0 <= i < s.len() && s[i].key@ == k {
            let i = choose|i: int| 0 <= i < s.len() && s[i].key@ == k;
            assert(i < s.len() - 1);
            assert(s.drop_last()[i].key@ == k);
        }
    }
}

proof fn lemma_kv_map_index(s: Seq<Entry>, i: int)
    requires
        unique_keys(s),
        0 <= i < s.len(),
    ensures
        kv_map(s).contains_key(s[i].key@),
        kv_map(s)[s[i].key@] == info_of(s[i]),
    decreases s.len(),
{
    if i == s.len() - 1 {
        assert(s.last() == s[i]);
    } else {
        assert(unique_keys(s.drop_last()));
        assert(s.drop_last()[i] == s[i]);
        lemma_kv_map_index(s.drop_last(), i);
        assert(s[i].key@ != s.last().key@);
    }
}

proof fn lemma_kv_map_update(s: Seq<Entry>, i: int, e2: Entry)
    requires
        unique_keys(s),
        0 <= i < s.len(),
        e2.key@ == s[i].key@,
    ensures
        kv_map(s.update(i, e2)) == kv_map(s).insert(e2.key@, info_of(e2)),
    decreases s.len(),
{
    let t = s.update(i, e2);
    if i == s.len() - 1 {
        assert(t.drop_last() =~= s.drop_last());
        assert(t.last() == e2);
        assert(kv_map(t) =~= kv_map(s).insert(e2.key@, info_of(e2)));
    } else {
        assert(t.drop_last() =~= s.drop_last().update(i, e2));
        assert(t.last() == s.last());
        assert(unique_keys(s.drop_last()));
        assert(s.drop_last()[i] == s[i]);
        lemma_kv_map_update(s.drop_last(), i, e2);
        assert(s[i].key@ != s.last().key@);
        assert(kv_map(t) =~= kv_map(s).insert(e2.key@, info_of(e2)));
    }
}

/// Copies of the fields of `e`, assembled into a fresh entry equal to it.
fn copy_entry(e: &Entry) -> (r: Entry)
    ensures
        r == *e,
{
    Entry { key: e.key.clone(), value: e.value.clone(), inserted_at: e.inserted_at, ttl_ms: e.ttl_ms }
}

impl Cache {
    /// The structural invariant: no key names two entries.
    pub closed spec fn wf(&self) -> bool {
        unique_keys(self.entries@)
    }

    /// The position of the entry for `key`, if one exists.
    fn find_key(&self, key: &String) -> (r: Option<usize>)
        ensures
            match r {
                Some(i) => 0 <= i < self.entries@.len() && self.entries@[i as int].key@ == key@,
                None => forall|j: int|
                    0 <= j < self.entries@.len() ==> self.entries@[j].key@ != key@,
            },
    {
        let n = self.entries.len();
        let mut i: usize = 0;
        while i < n
            invariant
                0 <= i <= n,
                n == self.entries@.len(),
                forall|j: int| 0 <= j < i ==> self.entries@[j].key@ != key@,
            decreases n - i,
        {
            if self.entries[i].key == *key {
                return Some(i);
            }
            i = i + 1;
        }
        None
    }

    /// Inserts or overwrites the entry for `key`, stamping it with the
    /// supplied time `now` and a time-to-live of `ttl_secs` whole
    /// seconds.
    pub fn set_at(&mut self, now: u64, key: String, value: String, ttl_secs: u64)
        requires
            old(self).wf(),
        ensures
            final(self).wf(),
            final(self)@ == spec_set(old(self)@, key@, value@, now as int, ttl_secs as int),
    {
        let ttl_ms: u64 = if ttl_secs <= u64::MAX / 1000 {
            ttl_secs * 1000
        } else {
            u64::MAX
        };
        assert(ttl_ms as int == spec_ttl_ms(ttl_secs as int));
        let found = self.find_key(&key);
        let e2 = Entry { key, value, inserted_at: now, ttl_ms };
        match found {
            Some(i) => {
                proof {
                    lemma_kv_map_update(self.entries@, i as int, e2);
                }
                let ghost s0 = self.entries@;
                self.entries[i] = e2;
                assert(self.entries@ == s0.update(i as int, e2));
                assert(forall|p: int, q: int|
                    0 <= p < q < self.entries@.len() ==> self.entries@[p].key@
                        != self.entries@[q].key@);
            },
            None => {
                let ghost s0 = self.entries@;
                self.entries.push(e2);
                assert(self.entries@.drop_last() =~= s0);
                assert(self.entries@.last() == e2);
                assert(forall|p: int, q: int|
                    0 <= p < q < self.entries@.len() ==> self.entries@[p].key@
                        != self.entries@[q].key@);
            },
        }
    }

    /// Removes every entry whose age at time `now` has reached its
    /// time-to-live, and nothing else.
    fn cleanup(&mut self, now: u64)
        requires
            old(self).wf(),
        ensures
            final(self).wf(),
            final(self)@ == spec_cleanup(old(self)@, now as int),
    {
        let ghost s = self.entries@;
        let n = self.entries.len();
        let mut kept: Vec<Entry> = Vec::new();
        let mut i: usize = 0;
        while i < n
            invariant
                0 <= i <= n,
                n == self.entries@.len(),
                self.entries@ == s,
                unique_keys(s),
                unique_keys(kept@),
                kv_map(kept@) == spec_cleanup(kv_map(s.take(i as int)), now as int),
                forall|p: int|
                    0 <= p < kept@.len() ==> exists|q: int|
                        0 <= q < i && (#[trigger] kept@[p]).key@ == s[q].key@,
            decreases n - i,
        {
            let ghost m_pre = kv_map(s.take(i as int));
            assert(s.take(i as int + 1).drop_last() =~= s.take(i as int));
            assert(s.take(i as int + 1).last() == s[i as int]);
            assert(kv_map(s.take(i as int + 1)) == m_pre.insert(
                s[i as int].key@,
                info_of(s[i as int]),
            ));
            proof {
                lemma_kv_map_contains(s.take(i as int), s[i as int].key@);
                assert(forall|q: int| 0 <= q < i ==> s[q].key@ != s[i as int].key@);
                assert(!m_pre.contains_key(s[i as int].key@));
            }
            let e = &self.entries[i];
            let live = now < e.inserted_at || now - e.inserted_at < e.ttl_ms;
            assert(live == spec_live(info_of(s[i as int]), now as int));
            if live {
                let ghost kept_pre = kept@;
                let c = copy_entry(e);
                kept.push(c);
                assert(kept@.drop_last() =~= kept_pre);
                assert(kept@.last() == s[i as int]);
                assert(kv_map(kept@) == kv_map(kept_pre).insert(
                    s[i as int].key@,
                    info_of(s[i as int]),
                ));
                assert(kv_map(kept@) =~= spec_cleanup(
                    kv_map(s.take(i as int + 1)),
                    now as int,
                ));
                assert(forall|p: int, q: int|
                    0 <= p < q < kept@.len() ==> kept@[p].key@ != kept@[q].key@);
            } else {
                assert(kv_map(kept@) =~= spec_cleanup(
                    kv_map(s.take(i as int + 1)),
                    now as int,
                ));
            }
            i = i + 1;
        }
        assert(s.take(n as int) =~= s);
        self.entries = kept;
    }

    /// Looks `key` up at time `now`.  The lookup begins with a cleanup
    /// pass, so an expired entry is both reported absent and physically
    /// removed by the same call.  Returns a copy of the stored value
    /// while the entry is live.
    pub fn get_at(&mut self, now: u64, key: &String) -> (r: Option<String>)
        requires
            old(self).wf(),
        ensures
            final(self).wf(),
            final(self)@ == spec_cleanup(old(self)@, now as int),
            match r {
                Some(v) => spec_lookup(old(self)@, key@, now as int) == Some(v@),
                None => spec_lookup(old(self)@, key@, now as int) is None,
            },
    {
        self.cleanup(now);
        match self.find_key(key) {
            Some(i) => {
                proof {
                    lemma_kv_map_index(self.entries@, i as int);
                }
                Some(self.entries[i].value.clone())
            },
            None => {
                proof {
                    lemma_kv_map_contains(self.entries@, key@);
                }
                None
            },
        }
    }

    /// An empty cache, whose time scale starts at the moment of the
    /// call.
    pub fn new() -> (r: Cache)
        ensures
            r.wf(),
            r@ == Map::<Seq<char>, EntryInfo>::empty(),
    {
        Cache { entries: Vec::new(), epoch: clock::instant_now() }
    }

    /// Inserts or overwrites the entry for `key` with a time-to-live of
    /// `ttl_secs` whole seconds, stamped with the current time.  The
    /// clock reading is not known to the verifier, so the write time is
    /// bound existentially; everything else about the new state is
    /// exact.
    pub fn set(&mut self, key: String, value: String, ttl_secs: u64)
        requires
            old(self).wf(),
        ensures
            final(self).wf(),
            exists|t0: int|
                0 <= t0 && final(self)@ == spec_set(
                    old(self)@,
                    key@,
                    value@,
                    t0,
                    ttl_secs as int,
                ),
            final(self)@.contains_key(key@),
            final(self)@[key@].value == value@,
            final(self)@[key@].ttl_ms == spec_ttl_ms(ttl_secs as int),
            forall|k: Seq<char>|
                k != key@ ==> (#[trigger] final(self)@.contains_key(k)
                    == old(self)@.contains_key(k) && (final(self)@.contains_key(k)
                    ==> final(self)@[k] == old(self)@[k])),
    {
        let later = clock::instant_now();
        let now = clock::millis_between(&self.epoch, &later);
        self.set_at(now, key, value, ttl_secs);
    }

    /// Looks `key` up at the current time, after the cleanup pass that
    /// every lookup begins with.  The clock reading is not known to the
    /// verifier, so the lookup time is bound existentially; a returned
    /// value is always the one stored for `key`, and a key the cache
    /// never held returns nothing.
    pub fn get(&mut self, key: &String) -> (r: Option<String>)
        requires
            old(self).wf(),
        ensures
            final(self).wf(),
            exists|t: int|
                0 <= t && final(self)@ == spec_cleanup(old(self)@, t) && (match r {
                    Some(v) => spec_lookup(old(self)@, key@, t) == Some(v@),
                    None => spec_lookup(old(self)@, key@, t) is None,
                }),
            match r {
                Some(v) => old(self)@.contains_key(key@) && old(self)@[key@].value == v@
                    && final(self)@.contains_key(key@) && final(self)@[key@]
                    == old(self)@[key@],
                None => !final(self)@.contains_key(key@),
            },
    {
        let later = clock::instant_now();
        let now = clock::millis_between(&self.epoch, &later);
        self.get_at(now, key)
    }
}

/// Time-to-live expiry: after a write of `k` at time `t0` with
/// time-to-live `ttl_secs`, a lookup of `k` returns the stored value at
/// every time before `t0 + ttl_secs` seconds, and absence at every time
/// from then on — regardless of what the map holds for other keys.
pub proof fn lemma_ttl_expiry(
    m: Map<Seq<char>, EntryInfo>,
    k: Seq<char>,
    v: Seq<char>,
    t0: int,
    ttl_secs: int,
    t: int,
)
    ensures
        spec_lookup(spec_set(m, k, v, t0, ttl_secs), k, t) == if t < t0 + spec_ttl_ms(
            ttl_secs,
        ) {
            Some(v)
        } else {
            None::<Seq<char>>
        },
{
}

/// Overwrite: a second write of the same key replaces the first
/// entirely — the value, write time and time-to-live of the first write
/// are no longer reachable in the model.
pub proof fn lemma_overwrite(
    m: Map<Seq<char>, EntryInfo>,
    k: Seq<char>,
    v1: Seq<char>,
    t1: int,
    ttl1: int,
    v2: Seq<char>,
    t2: int,
    ttl2: int,
)
    ensures
        spec_set(spec_set(m, k, v1, t1, ttl1), k, v2, t2, ttl2) == spec_set(m, k, v2, t2, ttl2),
{
    assert(spec_set(spec_set(m, k, v1, t1, ttl1), k, v2, t2, ttl2) =~= spec_set(
        m,
        k,
        v2,
        t2,
        ttl2,
    ));
}

/// Isolation of writes to distinct keys: writes to two different keys
/// commute, and neither hides the other — after both, each key looks up
/// exactly as if only its own write had happened.
pub proof fn lemma_set_isolation(
    m: Map<Seq<char>, EntryInfo>,
    k1: Seq<char>,
    v1: Seq<char>,
    t1: int,
    ttl1: int,
    k2: Seq<char>,
    v2: Seq<char>,
    t2: int,
    ttl2: int,
    t: int,
)
    requires
        k1 != k2,
    ensures
        spec_set(spec_set(m, k1, v1, t1, ttl1), k2, v2, t2, ttl2) == spec_set(
            spec_set(m, k2, v2, t2, ttl2),
            k1,
            v1,
            t1,
            ttl1,
        ),
        spec_lookup(spec_set(spec_set(m, k1, v1, t1, ttl1), k2, v2, t2, ttl2), k1, t)
            == spec_lookup(spec_set(m, k1, v1, t1, ttl1), k1, t),
        spec_lookup(spec_set(spec_set(m, k1, v1, t1, ttl1), k2, v2, t2, ttl2), k2, t)
            == spec_lookup(spec_set(m, k2, v2, t2, ttl2), k2, t),
{
    assert(spec_set(spec_set(m, k1, v1, t1, ttl1), k2, v2, t2, ttl2) =~= spec_set(
        spec_set(m, k2, v2, t2, ttl2),
        k1,
        v1,
        t1,
        ttl1,
    ));
}

} // verus!
