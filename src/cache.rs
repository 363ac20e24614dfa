//! A read-through, time-boxed cache of attribute texts keyed by path.
use vstd::prelude::*;
use crate::source::AttributeSource;

verus! {

/// One cached reading: its text and the time it was taken.
pub struct CacheEntry {
    pub value: String,
    pub captured_at: u64,
}

/// The model of a cache: for each path, the cached text and its capture time.
pub type CacheModel = Map<Seq<char>, (Seq<char>, u64)>;

pub open spec fn entries_model(s: Seq<(String, CacheEntry)>) -> CacheModel
    decreases s.len(),
{
    if s.len() == 0 {
        Map::empty()
    } else {
        entries_model(s.drop_last()).insert(
            s.last().0@,
            (s.last().1.value@, s.last().1.captured_at),
        )
    }
}

pub open spec fn keys_unique(s: Seq<(String, CacheEntry)>) -> bool {
    forall|i: int, j: int| 0 <= i < j < s.len() ==> s[i].0@ != s[j].0@
}

/// The age of a reading taken at `at`, seen at `now`; a clock that went
/// back counts as no time elapsed.
pub open spec fn age(at: u64, now: u64) -> int {
    if now >= at { now - at } else { 0 }
}

/// Whether `m` holds a reading for `path` younger than `ttl` at `now`.
pub open spec fn is_fresh(m: CacheModel, path: Seq<char>, ttl: u64, now: u64) -> bool {
    m.contains_key(path) && age(m[path].1, now) < ttl
}

/// What one cached read does: a fresh entry is served as it is; otherwise the
/// source is read, a successful read replaces the entry, a failed one leaves
/// the cache alone and yields nothing.
pub open spec fn cached_read(
    old: CacheModel,
    new: CacheModel,
    path: Seq<char>,
    ttl: u64,
    now: u64,
    r: Option<Seq<char>>,
) -> bool {
    if is_fresh(old, path, ttl, now) {
        r == Some(old[path].0) && new == old
    } else {
        match r {
            None => new == old,
            Some(v) => new == old.insert(path, (v, now)),
        }
    }
}

/// What a refresh does with the source's answer `fetched`: a text is
/// stored, stamped `now`, and returned; no text leaves the cache alone.
pub open spec fn refreshed(
    old: CacheModel,
    new: CacheModel,
    path: Seq<char>,
    now: u64,
    fetched: Option<Seq<char>>,
    r: Option<Seq<char>>,
) -> bool {
    &&& r == fetched
    &&& match fetched {
        Some(v) => new == old.insert(path, (v, now)),
        None => new == old,
    }
}

pub open spec fn text_of(r: Option<String>) -> Option<Seq<char>> {
    match r {
        Some(s) => Some(s@),
        None => None,
    }
}

proof fn lemma_model_index(s: Seq<(String, CacheEntry)>, i: int)
    requires
        keys_unique(s),
        0 <= i < s.len(),
    ensures
        entries_model(s).contains_key(s[i].0@),
        entries_model(s)[s[i].0@] == (s[i].1.value@, s[i].1.captured_at),
    decreases s.len(),
{
    if i < s.len() - 1 {
        lemma_model_index(s.drop_last(), i);
    }
}

proof fn lemma_model_absent(s: Seq<(String, CacheEntry)>, k: Seq<char>)
    requires
        forall|i: int| 0 <= i < s.len() ==> s[i].0@ != k,
    ensures
        !entries_model(s).contains_key(k),
    decreases s.len(),
{
    if s.len() > 0 {
        lemma_model_absent(s.drop_last(), k);
    }
}

proof fn lemma_model_update(s: Seq<(String, CacheEntry)>, i: int, e: (String, CacheEntry))
    requires
        keys_unique(s),
        0 <= i < s.len(),
        e.0@ == s[i].0@,
    ensures
        entries_model(s.update(i, e)) == entries_model(s).insert(
            e.0@,
            (e.1.value@, e.1.captured_at),
        ),
    decreases s.len(),
{
    let t = s.update(i, e);
    if i == s.len() - 1 {
        assert(t.drop_last() =~= s.drop_last());
        assert(entries_model(s).insert(e.0@, (e.1.value@, e.1.captured_at)) =~= entries_model(
            t,
        ));
    } else {
        assert(t.drop_last() =~= s.drop_last().update(i, e));
        lemma_model_update(s.drop_last(), i, e);
        assert(s.last().0@ != e.0@);
        assert(entries_model(s).insert(e.0@, (e.1.value@, e.1.captured_at)) =~= entries_model(
            t,
        ));
    }
}

proof fn lemma_model_size(s: Seq<(String, CacheEntry)>)
    requires
        keys_unique(s),
    ensures
        entries_model(s).dom().finite(),
        entries_model(s).dom().len() == s.len(),
    decreases s.len(),
{
    if s.len() > 0 {
        lemma_model_size(s.drop_last());
        lemma_model_absent(s.drop_last(), s.last().0@);
    }
}

/// Cached attribute texts, at most one entry per path.
pub struct ValueCache {
    entries: Vec<(String, CacheEntry)>,
}

impl View for ValueCache {
    type V = CacheModel;

    closed spec fn view(&self) -> CacheModel {
        entries_model(self.entries@)
    }
}

impl ValueCache {
    pub closed spec fn wf(&self) -> bool {
        keys_unique(self.entries@)
    }

    pub fn new() -> (r: ValueCache)
        ensures
            r.wf(),
            r@ == CacheModel::empty(),
    {
        ValueCache { entries: Vec::new() }
    }

    fn find(&self, path: &str) -> (r: Option<usize>)
        requires
            self.wf(),
        ensures
            match r {
                Some(i) => i < self.entries@.len() && self.entries@[i as int].0@ == path@,
                None => !self@.contains_key(path@),
            },
    {
        let key = String::from_str(path);
        let mut i: usize = 0;
        while i < self.entries.len()
            invariant
                key@ == path@,
                i <= self.entries@.len(),
                forall|k: int| 0 <= k < i ==> self.entries@[k].0@ != path@,
            decreases self.entries@.len() - i,
        {
            if self.entries[i].0 == key {
                return Some(i);
            }
            i = i + 1;
        }
        proof {
            lemma_model_absent(self.entries@, path@);
        }
        None
    }

    /// The cached text for `path` when it is younger than `ttl_ms` at `now`.
    pub fn fresh_value(&self, path: &str, ttl_ms: u64, now: u64) -> (r: Option<String>)
        requires
            self.wf(),
        ensures
            text_of(r) == if is_fresh(self@, path@, ttl_ms, now) {
                Some(self@[path@].0)
            } else {
                None
            },
    {
        match self.find(path) {
            Some(i) => {
                proof {
                    lemma_model_index(self.entries@, i as int);
                }
                let at = self.entries[i].1.captured_at;
                let elapsed = if now >= at { now - at } else { 0 };
                if elapsed < ttl_ms {
                    Some(self.entries[i].1.value.clone())
                } else {
                    None
                }
            },
            None => None,
        }
    }

    /// Records `value` for `path`, taken at `now`, replacing any entry.
    pub fn store(&mut self, path: &str, value: String, now: u64)
        requires
            old(self).wf(),
        ensures
            final(self).wf(),
            final(self)@ == old(self)@.insert(path@, (value@, now)),
    {
        let e = (String::from_str(path), CacheEntry { value, captured_at: now });
        match self.find(path) {
            Some(i) => {
                proof {
                    lemma_model_update(self.entries@, i as int, e);
                }
                self.entries.set(i, e);
            },
            None => {
                let ghost before = self.entries@;
                self.entries.push(e);
                assert(self.entries@.drop_last() =~= before);
                proof {
                    assert forall|k: int| 0 <= k < before.len() implies before[k].0@ != path@ by {
                        if before[k].0@ == path@ {
                            lemma_model_index(before, k);
                        }
                    }
                    assert forall|a: int, b: int|
                        0 <= a < b < self.entries@.len() implies self.entries@[a].0@
                        != self.entries@[b].0@ by {
                        if b == before.len() {
                            assert(before[a].0@ != path@);
                        }
                    }
                }
            },
        }
    }

    /// Takes the source's answer for `path` at `now`: a text replaces the
    /// entry and is returned; no answer leaves the cache as it is.
    pub fn refresh(&mut self, path: &str, now: u64, fetched: Option<String>) -> (r: Option<String>)
        requires
            old(self).wf(),
        ensures
            final(self).wf(),
            refreshed(old(self)@, final(self)@, path@, now, text_of(fetched), text_of(r)),
    {
        match fetched {
            Some(v) => {
                let out = v.clone();
                self.store(path, v, now);
                Some(out)
            },
            None => None,
        }
    }

    /// Reads `path` through the cache: a reading younger than `ttl_ms` at
    /// `now` is served without touching the source; otherwise the source is
    /// read, and only a successful read replaces the entry.
    pub fn read_sysfs_cached<S: AttributeSource>(
        &mut self,
        src: &S,
        path: &str,
        ttl_ms: u64,
        now: u64,
    ) -> (r: Option<String>)
        requires
            old(self).wf(),
        ensures
            final(self).wf(),
            cached_read(old(self)@, final(self)@, path@, ttl_ms, now, text_of(r)),
    {
        let hit = self.fresh_value(path, ttl_ms, now);
        if hit.is_some() {
            return hit;
        }
        let fetched = src.read(path);
        self.refresh(path, now, fetched)
    }

    /// The number of cached paths.
    pub fn get_cache_size(&self) -> (r: usize)
        requires
            self.wf(),
        ensures
            r == self@.dom().len(),
    {
        proof {
            lemma_model_size(self.entries@);
        }
        self.entries.len()
    }

    /// Forgets every cached reading.
    pub fn clear_value_cache(&mut self)
        ensures
            final(self).wf(),
            final(self)@ == CacheModel::empty(),
    {
        self.entries = Vec::new();
    }
}

/// Two reads of one path through the cache, the first of which obtained a
/// value from the source and the second taken less than `ttl` later, give the identical value and
/// leave the cache as the first left it, whatever the source would answer.
pub proof fn lemma_reads_within_ttl_agree(
    c0: CacheModel,
    c1: CacheModel,
    c2: CacheModel,
    path: Seq<char>,
    ttl: u64,
    t1: u64,
    t2: u64,
    r1: Option<Seq<char>>,
    r2: Option<Seq<char>>,
)
    requires
        cached_read(c0, c1, path, ttl, t1, r1),
        cached_read(c1, c2, path, ttl, t2, r2),
        r1 is Some,
        !is_fresh(c0, path, ttl, t1),
        t1 <= t2,
        t2 - t1 < ttl,
    ensures
        r2 == r1,
        c2 == c1,
{
}

/// A read of a path whose last successful read was taken `ttl` or more
/// before is not served from the cache: it goes to the source, and a
/// successful answer becomes the cached value.
pub proof fn lemma_read_after_ttl_refetches(
    c0: CacheModel,
    c1: CacheModel,
    c2: CacheModel,
    path: Seq<char>,
    ttl: u64,
    t1: u64,
    t3: u64,
    r1: Option<Seq<char>>,
    r3: Option<Seq<char>>,
)
    requires
        cached_read(c0, c1, path, ttl, t1, r1),
        r1 is Some,
        !is_fresh(c0, path, ttl, t1),
        cached_read(c1, c2, path, ttl, t3, r3),
        t3 >= t1,
        t3 - t1 >= ttl,
    ensures
        !is_fresh(c1, path, ttl, t3),
        r3 matches Some(v) ==> c2 == c1.insert(path, (v, t3)),
        r3 is None ==> c2 == c1,
{
}

/// The refresh that a read past `ttl` makes returns, and caches, exactly
/// the source's new answer.
pub proof fn lemma_refresh_reflects_source(
    c1: CacheModel,
    c2: CacheModel,
    path: Seq<char>,
    t3: u64,
    fetched: Seq<char>,
    r3: Option<Seq<char>>,
)
    requires
        refreshed(c1, c2, path, t3, Some(fetched), r3),
    ensures
        r3 == Some(fetched),
        c2.contains_key(path) && c2[path] == (fetched, t3),
        forall|p: Seq<char>| p != path ==> c2.contains_key(p) == c1.contains_key(p),
{
}

} // verus!
