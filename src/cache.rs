//! A bounded cache of serialized results keyed by query text. Each entry
//! carries the time it was last written; when the cache grows past its
//! bound the entry written longest ago leaves.

use vstd::prelude::*;
use crate::metric::same_text;

verus! {

/// One cached result: key, serialized value, and the time it was written.
pub type EntryView = (Seq<char>, Seq<char>, u64);

struct CacheEntry {
    key: String,
    value: String,
    timestamp: u64,
}

/// Size and bound of a cache.
#[derive(Debug, Clone, Copy, PartialEq, Eq, Structural)]
pub struct CacheStats {
    pub size: usize,
    pub max_size: usize,
}

/// No two entries share a key.
pub open spec fn keys_unique(s: Seq<EntryView>) -> bool {
    forall|i: int, j: int| 0 <= i < s.len() && 0 <= j < s.len() && i != j ==> s[i].0 != s[j].0
}

/// Whether some entry has key `key`.
pub open spec fn has_key(s: Seq<EntryView>, key: Seq<char>) -> bool {
    exists|i: int| 0 <= i < s.len() && s[i].0 == key
}

/// The entries without the one whose key is `key`, if there is one.
pub open spec fn remove_key(s: Seq<EntryView>, key: Seq<char>) -> Seq<EntryView> {
    if has_key(s, key) {
        s.remove(choose|i: int| 0 <= i < s.len() && s[i].0 == key)
    } else {
        s
    }
}

/// Position of the first entry with the smallest timestamp.
pub open spec fn oldest_index(s: Seq<EntryView>) -> int
    decreases s.len(),
{
    if s.len() <= 1 {
        0
    } else {
        let i = oldest_index(s.drop_last());
        if s.last().2 < s[i].2 {
            s.len() - 1
        } else {
            i
        }
    }
}

/// The entries after writing `value` under `key` at time `now` into a
/// cache bounded by `max_size`: a prior entry for `key` leaves, the new
/// entry goes last, and if that makes one too many the oldest leaves.
pub open spec fn after_set(
    s: Seq<EntryView>,
    max_size: nat,
    key: Seq<char>,
    value: Seq<char>,
    now: u64,
) -> Seq<EntryView> {
    let pushed = remove_key(s, key).push((key, value, now));
    if pushed.len() > max_size {
        pushed.remove(oldest_index(pushed))
    } else {
        pushed
    }
}

proof fn lemma_oldest_index_bounds(s: Seq<EntryView>)
    requires
        s.len() > 0,
    ensures
        0 <= oldest_index(s) < s.len(),
        forall|j: int| 0 <= j < s.len() ==> s[oldest_index(s)].2 <= #[trigger] s[j].2,
        forall|j: int| 0 <= j < oldest_index(s) ==> s[oldest_index(s)].2 < #[trigger] s[j].2,
    decreases s.len(),
{
    if s.len() > 1 {
        let t = s.drop_last();
        lemma_oldest_index_bounds(t);
        let i = oldest_index(t);
        assert(t[i] == s[i]);
        assert forall|j: int| 0 <= j < t.len() implies #[trigger] t[j] == s[j] by {}
        let o = oldest_index(s);
        let n = s.len() - 1;
        if s[n].2 < s[i].2 {
            assert(o == n);
            assert forall|j: int| 0 <= j < s.len() implies s[o].2 <= #[trigger] s[j].2 by {
                if j < n {
                    assert(t[i].2 <= t[j].2);
                }
            }
            assert forall|j: int| 0 <= j < o implies s[o].2 < #[trigger] s[j].2 by {
                assert(t[i].2 <= t[j].2);
            }
        } else {
            assert(o == i);
            assert forall|j: int| 0 <= j < s.len() implies s[o].2 <= #[trigger] s[j].2 by {
                if j < n {
                    assert(t[i].2 <= t[j].2);
                }
            }
            assert forall|j: int| 0 <= j < o implies s[o].2 < #[trigger] s[j].2 by {
                assert(t[i].2 < t[j].2);
            }
        }
    }
}

proof fn lemma_remove_keeps_unique(s: Seq<EntryView>, i: int)
    requires
        keys_unique(s),
        0 <= i < s.len(),
    ensures
        keys_unique(s.remove(i)),
        forall|j: int| 0 <= j < s.remove(i).len() ==> #[trigger] s.remove(i)[j].0 != s[i].0,
{
    let r = s.remove(i);
    assert forall|a: int, b: int| 0 <= a < r.len() && 0 <= b < r.len() && a != b implies r[a].0 != r[b].0 by {
        let sa = if a < i { a } else { a + 1 };
        let sb = if b < i { b } else { b + 1 };
        assert(r[a] == s[sa]);
        assert(r[b] == s[sb]);
    }
    assert forall|j: int| 0 <= j < r.len() implies #[trigger] r[j].0 != s[i].0 by {
        let sj = if j < i { j } else { j + 1 };
        assert(r[j] == s[sj]);
    }
}

/// A cache of at most `max_size` entries, keys unique.
pub struct SearchCache {
    max_size: usize,
    cache: Vec<CacheEntry>,
}

impl SearchCache {
    /// The entries, in the order they were written.
    pub closed spec fn entries(&self) -> Seq<EntryView> {
        Seq::new(self.cache@.len(), |i: int| (self.cache@[i].key@, self.cache@[i].value@, self.cache@[i].timestamp))
    }

    /// The bound on the number of entries.
    pub closed spec fn bound(&self) -> nat {
        self.max_size as nat
    }

    /// Keys are unique and the bound holds.
    pub open spec fn wf(&self) -> bool {
        keys_unique(self.entries()) && self.entries().len() <= self.bound()
    }

    /// An empty cache that holds at most `max_size` entries.
    pub fn new(max_size: usize) -> (r: Self)
        ensures
            r.wf(),
            r.entries() == Seq::<EntryView>::empty(),
            r.bound() == max_size,
    {
        let r = SearchCache { max_size, cache: Vec::new() };
        assert(r.entries() =~= Seq::<EntryView>::empty());
        r
    }

    fn position_of(&self, query: &str) -> (r: Option<usize>)
        ensures
            r is None ==> !has_key(self.entries(), query@),
            r is Some ==> r->Some_0 < self.entries().len() && self.entries()[r->Some_0 as int].0 == query@,
    {
        let mut i: usize = 0;
        while i < self.cache.len()
            invariant
                i <= self.cache@.len(),
                forall|j: int| 0 <= j < i ==> #[trigger] self.entries()[j].0 != query@,
            decreases self.cache@.len() - i,
        {
            if same_text(self.cache[i].key.as_str(), query) {
                return Some(i);
            }
            i += 1;
        }
        None
    }

    /// The value stored under `query`, unchanged, if there is one.
    pub fn get(&self, query: &str) -> (r: Option<String>)
        requires
            self.wf(),
        ensures
            r is Some == has_key(self.entries(), query@),
            forall|i: int|
                0 <= i < self.entries().len() && self.entries()[i].0 == query@ ==> r is Some && r->Some_0@
                    == #[trigger] self.entries()[i].1,
    {
        match self.position_of(query) {
            Some(i) => Some(self.cache[i].value.clone()),
            None => None,
        }
    }

    fn oldest(&self) -> (r: usize)
        requires
            self.cache@.len() > 0,
        ensures
            r == oldest_index(self.entries()),
    {
        let ghost s = self.entries();
        let mut best: usize = 0;
        let mut j: usize = 1;
        while j < self.cache.len()
            invariant
                1 <= j <= s.len(),
                s == self.entries(),
                best == oldest_index(s.subrange(0, j as int)),
                best < j,
            decreases s.len() - j,
        {
            assert(s.subrange(0, j + 1).drop_last() =~= s.subrange(0, j as int));
            if self.cache[j].timestamp < self.cache[best].timestamp {
                best = j;
            }
            j += 1;
        }
        assert(s.subrange(0, s.len() as int) =~= s);
        best
    }

    /// Stores `results` under `query` at time `now`: a prior entry for
    /// `query` is replaced, and when that leaves more than `max_size`
    /// entries the one with the smallest timestamp, the first such, leaves.
    pub fn set(&mut self, query: String, results: String, now: u64)
        requires
            old(self).wf(),
        ensures
            final(self).wf(),
            final(self).bound() == old(self).bound(),
            final(self).entries() == after_set(old(self).entries(), old(self).bound(), query@, results@, now),
    {
        let ghost s0 = self.entries();
        let ghost key = query@;
        match self.position_of(query.as_str()) {
            Some(i) => {
                let ghost c = choose|c: int| 0 <= c < s0.len() && s0[c].0 == key;
                assert(c == i);
                proof {
                    lemma_remove_keeps_unique(s0, i as int);
                }
                self.cache.remove(i);
                assert(self.entries() =~= s0.remove(i as int));
            },
            None => {},
        }
        let ghost s1 = self.entries();
        assert(s1 == remove_key(s0, key));
        assert(forall|j: int| 0 <= j < s1.len() ==> #[trigger] s1[j].0 != key);
        self.cache.push(CacheEntry { key: query, value: results, timestamp: now });
        let ghost s2 = self.entries();
        assert(s2 =~= s1.push((key, results@, now)));
        assert(keys_unique(s2)) by {
            assert forall|a: int, b: int| 0 <= a < s2.len() && 0 <= b < s2.len() && a != b implies s2[a].0 != s2[b].0 by {
                if a < s1.len() && b < s1.len() {
                    assert(s2[a] == s1[a]);
                    assert(s2[b] == s1[b]);
                } else if a < s1.len() {
                    assert(s2[a] == s1[a]);
                } else {
                    assert(s2[b] == s1[b]);
                }
            }
        }
        if self.cache.len() > self.max_size {
            let o = self.oldest();
            proof {
                lemma_oldest_index_bounds(s2);
                lemma_remove_keeps_unique(s2, o as int);
            }
            self.cache.remove(o);
            assert(self.entries() =~= s2.remove(o as int));
        }
    }

    /// Removes every entry.
    pub fn clear(&mut self)
        requires
            old(self).wf(),
        ensures
            final(self).wf(),
            final(self).entries() == Seq::<EntryView>::empty(),
            final(self).bound() == old(self).bound(),
    {
        self.cache.clear();
        assert(self.entries() =~= Seq::<EntryView>::empty());
    }

    /// The number of entries and the bound.
    pub fn stats(&self) -> (r: CacheStats)
        ensures
            r.size == self.entries().len(),
            r.max_size == self.bound(),
    {
        CacheStats { size: self.cache.len(), max_size: self.max_size }
    }
}

} // verus!
