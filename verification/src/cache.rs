//! The glyph result cache: an LRU from render keys to finished payloads.
//!
//! Identical jobs bypass shaping and rasterization entirely: the cache maps
//! a key covering everything that influences the rendered bytes to the
//! payload produced the first time. Keys hold variation coordinates in a
//! sorted, bit-exact integer form, so insertion order cannot affect
//! equality. A key held in the cache determines its payload uniquely, which
//! is what makes a cache hit byte-identical to a cold render.

use vstd::prelude::*;
use vstd::string::StringExecFns;

use crate::batch::{MetricsOutput, RenderingOutput};
use crate::strutil::str_eq;

verus! {

/// Everything that influences a rendered payload: font, size, canvas,
/// format, text, script, and the applied variation coordinates as sorted
/// `(packed tag, fixed value)` pairs.
#[derive(Clone, Debug)]
pub struct GlyphCacheKey {
    /// Resolved font path.
    pub font_path: String,
    /// Font size in points.
    pub font_size: u32,
    /// Canvas width.
    pub width: u32,
    /// Canvas height.
    pub height: u32,
    /// Output format word.
    pub format: String,
    /// Encoding label.
    pub encoding: String,
    /// The text rendered.
    pub text: String,
    /// Script hint, when one was supplied.
    pub script: Option<String>,
    /// Applied coordinates, sorted by packed tag.
    pub variations: Vec<(u32, i32)>,
}

/// Two keys describe the same render: every field agrees, strings by their
/// characters.
pub open spec fn key_matches(a: GlyphCacheKey, b: GlyphCacheKey) -> bool {
    &&& a.font_path@ == b.font_path@
    &&& a.font_size == b.font_size
    &&& a.width == b.width
    &&& a.height == b.height
    &&& a.format@ == b.format@
    &&& a.encoding@ == b.encoding@
    &&& a.text@ == b.text@
    &&& (a.script is Some <==> b.script is Some)
    &&& (a.script matches Some(sa) ==> b.script matches Some(sb) && sa@ == sb@)
    &&& a.variations@ == b.variations@
}

/// Compare two cache keys field by field.
pub fn key_eq(a: &GlyphCacheKey, b: &GlyphCacheKey) -> (r: bool)
    ensures
        r == key_matches(*a, *b),
{
    if a.font_size != b.font_size || a.width != b.width || a.height != b.height {
        return false;
    }
    if !str_eq(a.font_path.as_str(), b.font_path.as_str()) {
        return false;
    }
    if !str_eq(a.format.as_str(), b.format.as_str()) {
        return false;
    }
    if !str_eq(a.encoding.as_str(), b.encoding.as_str()) {
        return false;
    }
    if !str_eq(a.text.as_str(), b.text.as_str()) {
        return false;
    }
    match (&a.script, &b.script) {
        (Some(sa), Some(sb)) => {
            if !str_eq(sa.as_str(), sb.as_str()) {
                return false;
            }
        },
        (None, None) => {},
        _ => {
            return false;
        },
    }
    let n = a.variations.len();
    if n != b.variations.len() {
        assert(a.variations@ != b.variations@);
        return false;
    }
    let mut i: usize = 0;
    while i < n
        invariant
            i <= n,
            n == a.variations@.len(),
            n == b.variations@.len(),
            forall|j: int| 0 <= j < i ==> a.variations@[j] == b.variations@[j],
        decreases n - i,
    {
        let (ta, va) = a.variations[i];
        let (tb, vb) = b.variations[i];
        if ta != tb || va != vb {
            assert(a.variations@[i as int] != b.variations@[i as int]);
            return false;
        }
        i = i + 1;
    }
    proof {
        assert(a.variations@ =~= b.variations@);
    }
    true
}

impl RenderingOutput {
    /// An exact copy of the payload.
    pub fn duplicate(&self) -> (r: RenderingOutput)
        ensures
            r == *self,
    {
        RenderingOutput {
            format: self.format.clone(),
            encoding: self.encoding.clone(),
            data: self.data.clone(),
            width: self.width,
            height: self.height,
            actual_bbox: self.actual_bbox,
        }
    }
}

/// A finished result ready to stream out: either an encoded image or the
/// exact metrics parts.
#[derive(Clone, Debug)]
pub enum JobPayload {
    /// Encoded image payload.
    Rendering(RenderingOutput),
    /// Exact metrics parts.
    Metrics(MetricsOutput),
}

impl JobPayload {
    /// An exact copy of the payload.
    pub fn duplicate(&self) -> (r: JobPayload)
        ensures
            r == *self,
    {
        match self {
            JobPayload::Rendering(out) => JobPayload::Rendering(out.duplicate()),
            JobPayload::Metrics(m) => JobPayload::Metrics(
                MetricsOutput {
                    ink_total: m.ink_total,
                    longest_run: m.longest_run,
                    pixel_count: m.pixel_count,
                },
            ),
        }
    }
}

/// Cache counters for observability.
#[derive(Clone, Copy, Debug)]
pub struct GlyphCacheStats {
    /// Entries currently held.
    pub entries: usize,
    /// Configured capacity.
    pub capacity: usize,
    /// Hits recorded so far.
    pub hits: u64,
}

/// An LRU map from cache keys to payloads: least recently used entries sit
/// at the front and are evicted first.
pub struct GlyphCache {
    entries: Vec<(GlyphCacheKey, JobPayload)>,
    capacity: usize,
    hits: u64,
}

impl GlyphCache {
    /// The held entries, least recently used first.
    pub closed spec fn spec_entries(&self) -> Seq<(GlyphCacheKey, JobPayload)> {
        self.entries@
    }

    /// The configured capacity.
    pub closed spec fn spec_capacity(&self) -> usize {
        self.capacity
    }

    /// Hits recorded so far.
    pub closed spec fn spec_hits(&self) -> u64 {
        self.hits
    }

    /// The cache never exceeds its capacity and never holds two entries
    /// whose keys match.
    pub open spec fn wf(&self) -> bool {
        &&& self.spec_entries().len() <= self.spec_capacity()
        &&& 1 <= self.spec_capacity()
        &&& forall|i: int, j: int|
            0 <= i < j < self.spec_entries().len() ==> !key_matches(
                (#[trigger] self.spec_entries()[i]).0,
                (#[trigger] self.spec_entries()[j]).0,
            )
    }

    /// The cache holds an entry for this key.
    pub open spec fn has_key(&self, key: GlyphCacheKey) -> bool {
        entries_have_key(self.spec_entries(), key)
    }

    /// The cache maps this key to this payload.
    pub open spec fn has_entry(&self, key: GlyphCacheKey, payload: JobPayload) -> bool {
        entries_have(self.spec_entries(), key, payload)
    }

    /// A key determines its payload: the cache never serves two different
    /// payloads for matching keys, which is what makes a cache hit
    /// byte-identical to the render that populated it.
    pub proof fn lemma_entry_unique(&self, key: GlyphCacheKey, p1: JobPayload, p2: JobPayload)
        requires
            self.wf(),
            self.has_entry(key, p1),
            self.has_entry(key, p2),
        ensures
            p1 == p2,
    {
        let i = choose|i: int|
            0 <= i < self.spec_entries().len() && key_matches(
                (#[trigger] self.spec_entries()[i]).0,
                key,
            ) && self.spec_entries()[i].1 == p1;
        let j = choose|j: int|
            0 <= j < self.spec_entries().len() && key_matches(
                (#[trigger] self.spec_entries()[j]).0,
                key,
            ) && self.spec_entries()[j].1 == p2;
        if i != j {
            assert(key_matches(self.spec_entries()[i].0, self.spec_entries()[j].0));
        }
    }

    /// Create a cache with the requested capacity; a capacity of zero
    /// disables caching and yields no cache.
    pub fn new(capacity: usize) -> (r: Option<GlyphCache>)
        ensures
            r is Some <==> capacity >= 1,
            r matches Some(c) ==> c.wf() && c.spec_capacity() == capacity && c.spec_entries().len()
                == 0 && c.spec_hits() == 0,
    {
        if capacity == 0 {
            None
        } else {
            Some(GlyphCache { entries: Vec::new(), capacity, hits: 0 })
        }
    }

    /// Find the index of the entry matching a key.
    fn find(&self, key: &GlyphCacheKey) -> (r: Option<usize>)
        ensures
            r is Some <==> self.has_key(*key),
            r matches Some(i) ==> i < self.spec_entries().len() && key_matches(
                self.spec_entries()[i as int].0,
                *key,
            ),
    {
        let n = self.entries.len();
        let mut i: usize = 0;
        while i < n
            invariant
                i <= n,
                n == self.spec_entries().len(),
                forall|j: int|
                    0 <= j < i ==> !key_matches((#[trigger] self.spec_entries()[j]).0, *key),
            decreases n - i,
        {
            if key_eq(&self.entries[i].0, key) {
                return Some(i);
            }
            i = i + 1;
        }
        None
    }

    /// Retrieve the payload cached for a key, refreshing its recency. A hit
    /// returns an exact copy of the stored payload and counts one hit;
    /// a miss changes nothing. The key-to-payload mapping is unchanged
    /// either way.
    pub fn get(&mut self, key: &GlyphCacheKey) -> (r: Option<JobPayload>)
        requires
            old(self).wf(),
        ensures
            final(self).wf(),
            final(self).spec_capacity() == old(self).spec_capacity(),
            r is Some <==> old(self).has_key(*key),
            r matches Some(p) ==> old(self).has_entry(*key, p),
            r is Some ==> final(self).spec_hits() == if old(self).spec_hits() < u64::MAX {
                old(self).spec_hits() + 1
            } else {
                old(self).spec_hits() as int
            },
            final(self).spec_hits() >= old(self).spec_hits(),
            r is None ==> *final(self) == *old(self),
            forall|k: GlyphCacheKey, p: JobPayload|
                final(self).has_entry(k, p) <==> old(self).has_entry(k, p),
            forall|k: GlyphCacheKey| final(self).has_key(k) <==> old(self).has_key(k),
    {
        match self.find(key) {
            Some(i) => {
                let ghost pre = self.entries@;
                let entry = self.entries.remove(i);
                let payload = entry.1.duplicate();
                self.entries.push(entry);
                if self.hits < u64::MAX {
                    self.hits = self.hits + 1;
                }
                proof {
                    let post = self.entries@;
                    assert(post =~= pre.remove(i as int).push(pre[i as int]));
                    assert(post == pre.remove(i as int).push(pre[i as int]));
                    assert forall|k: GlyphCacheKey, p: JobPayload|
                        self.has_entry(k, p) <==> old(self).has_entry(k, p) by {
                        lemma_remove_push_entries(pre, i as int, k, p);
                    }
                    assert forall|k: GlyphCacheKey|
                        self.has_key(k) <==> old(self).has_key(k) by {
                        lemma_remove_push_keys(pre, i as int, k);
                    }
                    lemma_remove_push_distinct(pre, i as int);
                }
                Some(payload)
            },
            None => None,
        }
    }

    /// Insert a payload under a key. A matching entry is replaced in place
    /// and refreshed; otherwise the entry is added, evicting the least
    /// recently used entry — the front of the recency order — when the
    /// cache is full. Afterwards the cache maps the key to exactly this
    /// payload, and every other key's mapping is unchanged except the
    /// evicted one's, which is gone.
    pub fn insert(&mut self, key: GlyphCacheKey, payload: JobPayload)
        requires
            old(self).wf(),
        ensures
            final(self).wf(),
            final(self).spec_capacity() == old(self).spec_capacity(),
            final(self).spec_hits() == old(self).spec_hits(),
            final(self).has_entry(key, payload),
            old(self).has_key(key) || old(self).spec_entries().len() < old(self).spec_capacity()
                ==> forall|k: GlyphCacheKey, p: JobPayload|
                !key_matches(k, key) ==> (final(self).has_entry(k, p) <==> old(self).has_entry(
                    k,
                    p,
                )),
            !old(self).has_key(key) && old(self).spec_entries().len() == old(self).spec_capacity()
                ==> ({
                let victim = old(self).spec_entries()[0].0;
                &&& !final(self).has_key(victim)
                &&& forall|k: GlyphCacheKey, p: JobPayload|
                    !key_matches(k, key) && !key_matches(k, victim) ==> (final(self).has_entry(
                        k,
                        p,
                    ) <==> old(self).has_entry(k, p))
            }),
    {
        match self.find(&key) {
            Some(i) => {
                let ghost pre = self.entries@;
                let _ = self.entries.remove(i);
                proof {
                    lemma_remove_distinct(pre, i as int);
                }
                self.entries.push((key, payload));
                proof {
                    let post = self.entries@;
                    assert(post =~= pre.remove(i as int).push((key, payload)));
                    assert(post == pre.remove(i as int).push((key, payload)));
                    assert(post[post.len() - 1] == (key, payload));
                    assert(key_matches(post[post.len() - 1].0, key));
                    assert forall|k: GlyphCacheKey, p: JobPayload|
                        !key_matches(k, key) implies (entries_have(post, k, p) <==> entries_have(
                        pre,
                        k,
                        p,
                    )) by {
                        if key_matches(pre[i as int].0, k) {
                            lemma_key_matches_trans(pre[i as int].0, key, pre[i as int].0);
                            assert(key_matches(k, pre[i as int].0));
                            lemma_key_matches_trans(k, pre[i as int].0, key);
                        }
                        lemma_remove_nonmatching(pre, i as int, k);
                        lemma_push_nonmatching(pre.remove(i as int), (key, payload), k);
                    }
                    assert forall|a: int, b: int|
                        0 <= a < b < post.len() implies !key_matches(
                        (#[trigger] post[a]).0,
                        (#[trigger] post[b]).0,
                    ) by {
                        if b < post.len() - 1 {
                            assert(post[a] == pre.remove(i as int)[a]);
                            assert(post[b] == pre.remove(i as int)[b]);
                        } else {
                            // the new entry's key matched only the removed entry
                            assert(post[a] == pre.remove(i as int)[a]);
                            let orig = if a < i {
                                a
                            } else {
                                a + 1
                            };
                            assert(pre.remove(i as int)[a] == pre[orig]);
                            if key_matches(post[a].0, key) {
                                assert(key_matches(pre[orig].0, pre[i as int].0)) by {
                                    lemma_key_matches_trans(pre[orig].0, key, pre[i as int].0);
                                }
                            }
                        }
                    }
                }
            },
            None => {
                let ghost pre = self.entries@;
                let ghost evicting = pre.len() >= old(self).spec_capacity();
                if self.entries.len() >= self.capacity {
                    let _ = self.entries.remove(0);
                    proof {
                        lemma_remove_distinct(pre, 0);
                        assert(self.entries@ == pre.remove(0));
                        assert forall|j: int|
                            0 <= j < self.entries@.len() implies !key_matches(
                            (#[trigger] self.entries@[j]).0,
                            key,
                        ) by {
                            assert(self.entries@[j] == pre[j + 1]);
                        }
                    }
                }
                let ghost mid = self.entries@;
                self.entries.push((key, payload));
                proof {
                    let post = self.entries@;
                    assert(post =~= mid.push((key, payload)));
                    assert(post == mid.push((key, payload)));
                    if evicting {
                        let victim = pre[0].0;
                        // Every remaining entry had a key distinct from the
                        // victim's, and the inserted key misses everywhere.
                        assert(!final(self).has_key(victim) && forall|k: GlyphCacheKey,
                            p: JobPayload|
                            !key_matches(k, key) && !key_matches(k, victim) ==> (entries_have(
                                post,
                                k,
                                p,
                            ) <==> entries_have(pre, k, p))) by {
                            if key_matches(pre[0].0, key) {
                                assert(entries_have_key(pre, key));
                            }
                            assert(!key_matches((key, payload).0, victim)) by {
                                if key_matches(key, victim) {
                                    lemma_key_matches_trans(pre[0].0, victim, key);
                                    assert(entries_have_key(pre, key));
                                }
                            }
                            assert forall|j: int|
                                0 <= j < mid.len() implies !key_matches(
                                (#[trigger] mid[j]).0,
                                victim,
                            ) by {
                                assert(mid[j] == pre[j + 1]);
                                if key_matches(pre[j + 1].0, victim) {
                                    lemma_key_matches_trans(pre[j + 1].0, victim, pre[0].0);
                                }
                            }
                            if entries_have_key(post, victim) {
                                let a = choose|a: int|
                                    0 <= a < post.len() && key_matches(
                                        (#[trigger] post[a]).0,
                                        victim,
                                    );
                                if a < post.len() - 1 {
                                    assert(post[a] == mid[a]);
                                } else {
                                    assert(post[a] == (key, payload));
                                }
                            }
                            assert forall|k: GlyphCacheKey, p: JobPayload|
                                !key_matches(k, key) && !key_matches(k, victim) implies (
                            entries_have(post, k, p) <==> entries_have(pre, k, p)) by {
                                if key_matches(pre[0].0, k) {
                                    assert(key_matches(k, victim)) by {
                                        lemma_key_matches_trans(k, pre[0].0, pre[0].0);
                                    }
                                }
                                lemma_remove_nonmatching(pre, 0, k);
                                lemma_push_nonmatching(mid, (key, payload), k);
                            }
                        }
                    } else {
                        assert forall|k: GlyphCacheKey, p: JobPayload|
                            !key_matches(k, key) implies (entries_have(post, k, p) <==> entries_have(
                            pre,
                            k,
                            p,
                        )) by {
                            lemma_push_nonmatching(pre, (key, payload), k);
                        }
                    }
                    assert(key_matches(post[post.len() - 1].0, key));
                    assert forall|a: int, b: int|
                        0 <= a < b < post.len() implies !key_matches(
                        (#[trigger] post[a]).0,
                        (#[trigger] post[b]).0,
                    ) by {
                        if b == post.len() - 1 {
                            assert(post[a] == mid[a]);
                            if key_matches(post[a].0, key) {
                                assert(old(self).has_key(key)) by {
                                    if pre.len() >= old(self).spec_capacity() {
                                        assert(mid[a] == pre[a + 1]);
                                    } else {
                                        assert(mid[a] == pre[a]);
                                    }
                                }
                            }
                        } else {
                            assert(post[a] == mid[a]);
                            assert(post[b] == mid[b]);
                            if pre.len() >= old(self).spec_capacity() {
                                assert(mid[a] == pre[a + 1] && mid[b] == pre[b + 1]);
                            } else {
                                assert(mid[a] == pre[a] && mid[b] == pre[b]);
                            }
                        }
                    }
                }
            },
        }
    }

    /// Remove every entry; the hit counter is kept.
    pub fn clear(&mut self)
        requires
            old(self).wf(),
        ensures
            final(self).wf(),
            final(self).spec_entries().len() == 0,
            final(self).spec_capacity() == old(self).spec_capacity(),
            final(self).spec_hits() == old(self).spec_hits(),
    {
        self.entries.clear();
    }

    /// Resize the cache, evicting least recently used entries until the new
    /// capacity holds. A capacity of zero is rejected by the caller, which
    /// disables caching by dropping the cache instead.
    pub fn set_capacity(&mut self, capacity: usize)
        requires
            old(self).wf(),
            capacity >= 1,
        ensures
            final(self).wf(),
            final(self).spec_capacity() == capacity,
            final(self).spec_hits() == old(self).spec_hits(),
    {
        while self.entries.len() > capacity
            invariant
                self.wf(),
                self.spec_hits() == old(self).spec_hits(),
                self.spec_capacity() == old(self).spec_capacity(),
            decreases self.spec_entries().len(),
        {
            let ghost pre = self.entries@;
            let _ = self.entries.remove(0);
            proof {
                lemma_remove_distinct(pre, 0);
            }
        }
        self.capacity = capacity;
    }

    /// Current counters: entries held, capacity, hits.
    pub fn stats(&self) -> (r: GlyphCacheStats)
        ensures
            r.entries == self.spec_entries().len(),
            r.capacity == self.spec_capacity(),
            r.hits == self.spec_hits(),
    {
        GlyphCacheStats { entries: self.entries.len(), capacity: self.capacity, hits: self.hits }
    }
}

/// Some entry of the list has a matching key.
pub open spec fn entries_have_key(s: Seq<(GlyphCacheKey, JobPayload)>, k: GlyphCacheKey) -> bool {
    exists|i: int| 0 <= i < s.len() && key_matches((#[trigger] s[i]).0, k)
}

/// Some entry of the list has a matching key carrying this payload.
pub open spec fn entries_have(
    s: Seq<(GlyphCacheKey, JobPayload)>,
    k: GlyphCacheKey,
    p: JobPayload,
) -> bool {
    exists|i: int| 0 <= i < s.len() && key_matches((#[trigger] s[i]).0, k) && s[i].1 == p
}

/// Removing an entry whose key does not match `k` keeps `k`'s mapping.
proof fn lemma_remove_nonmatching(s: Seq<(GlyphCacheKey, JobPayload)>, i: int, k: GlyphCacheKey)
    requires
        0 <= i < s.len(),
        !key_matches(s[i].0, k),
    ensures
        forall|p: JobPayload| entries_have(s.remove(i), k, p) <==> entries_have(s, k, p),
        entries_have_key(s.remove(i), k) <==> entries_have_key(s, k),
{
    let t = s.remove(i);
    assert forall|p: JobPayload| entries_have(t, k, p) <==> entries_have(s, k, p) by {
        if entries_have(t, k, p) {
            let a = choose|a: int|
                0 <= a < t.len() && key_matches((#[trigger] t[a]).0, k) && t[a].1 == p;
            let orig = if a < i {
                a
            } else {
                a + 1
            };
            assert(t[a] == s[orig]);
            assert(entries_have(s, k, p));
        }
        if entries_have(s, k, p) {
            let a = choose|a: int|
                0 <= a < s.len() && key_matches((#[trigger] s[a]).0, k) && s[a].1 == p;
            let moved = if a < i {
                a
            } else {
                a - 1
            };
            assert(t[moved] == s[a]);
            assert(entries_have(t, k, p));
        }
    }
    if entries_have_key(t, k) {
        let a = choose|a: int| 0 <= a < t.len() && key_matches((#[trigger] t[a]).0, k);
        let orig = if a < i {
            a
        } else {
            a + 1
        };
        assert(t[a] == s[orig]);
        assert(entries_have_key(s, k));
    }
    if entries_have_key(s, k) {
        let a = choose|a: int| 0 <= a < s.len() && key_matches((#[trigger] s[a]).0, k);
        let moved = if a < i {
            a
        } else {
            a - 1
        };
        assert(t[moved] == s[a]);
        assert(entries_have_key(t, k));
    }
}

/// Appending an entry whose key does not match `k` keeps `k`'s mapping.
proof fn lemma_push_nonmatching(
    s: Seq<(GlyphCacheKey, JobPayload)>,
    e: (GlyphCacheKey, JobPayload),
    k: GlyphCacheKey,
)
    requires
        !key_matches(e.0, k),
    ensures
        forall|p: JobPayload| entries_have(s.push(e), k, p) <==> entries_have(s, k, p),
        entries_have_key(s.push(e), k) <==> entries_have_key(s, k),
{
    let t = s.push(e);
    assert forall|p: JobPayload| entries_have(t, k, p) <==> entries_have(s, k, p) by {
        if entries_have(t, k, p) {
            let a = choose|a: int|
                0 <= a < t.len() && key_matches((#[trigger] t[a]).0, k) && t[a].1 == p;
            assert(a < s.len() && t[a] == s[a]);
            assert(entries_have(s, k, p));
        }
        if entries_have(s, k, p) {
            let a = choose|a: int|
                0 <= a < s.len() && key_matches((#[trigger] s[a]).0, k) && s[a].1 == p;
            assert(t[a] == s[a]);
            assert(entries_have(t, k, p));
        }
    }
    if entries_have_key(t, k) {
        let a = choose|a: int| 0 <= a < t.len() && key_matches((#[trigger] t[a]).0, k);
        assert(a < s.len() && t[a] == s[a]);
        assert(entries_have_key(s, k));
    }
    if entries_have_key(s, k) {
        let a = choose|a: int| 0 <= a < s.len() && key_matches((#[trigger] s[a]).0, k);
        assert(t[a] == s[a]);
        assert(entries_have_key(t, k));
    }
}

/// Key matching carries across a shared middle key.
proof fn lemma_key_matches_trans(a: GlyphCacheKey, b: GlyphCacheKey, c: GlyphCacheKey)
    requires
        key_matches(a, b),
        key_matches(c, b),
    ensures
        key_matches(a, c),
{
}

/// Removing one entry keeps the remaining keys pairwise distinct.
proof fn lemma_remove_distinct(s: Seq<(GlyphCacheKey, JobPayload)>, i: int)
    requires
        0 <= i < s.len(),
        forall|a: int, b: int|
            0 <= a < b < s.len() ==> !key_matches((#[trigger] s[a]).0, (#[trigger] s[b]).0),
    ensures
        forall|a: int, b: int|
            0 <= a < b < s.remove(i).len() ==> !key_matches(
                (#[trigger] s.remove(i)[a]).0,
                (#[trigger] s.remove(i)[b]).0,
            ),
{
    assert forall|a: int, b: int|
        0 <= a < b < s.remove(i).len() implies !key_matches(
        (#[trigger] s.remove(i)[a]).0,
        (#[trigger] s.remove(i)[b]).0,
    ) by {
        let oa = if a < i {
            a
        } else {
            a + 1
        };
        let ob = if b < i {
            b
        } else {
            b + 1
        };
        assert(s.remove(i)[a] == s[oa]);
        assert(s.remove(i)[b] == s[ob]);
    }
}

/// Moving one entry to the back keeps the keys pairwise distinct.
proof fn lemma_remove_push_distinct(s: Seq<(GlyphCacheKey, JobPayload)>, i: int)
    requires
        0 <= i < s.len(),
        forall|a: int, b: int|
            0 <= a < b < s.len() ==> !key_matches((#[trigger] s[a]).0, (#[trigger] s[b]).0),
    ensures
        ({
            let t = s.remove(i).push(s[i]);
            forall|a: int, b: int|
                0 <= a < b < t.len() ==> !key_matches((#[trigger] t[a]).0, (#[trigger] t[b]).0)
        }),
{
    let t = s.remove(i).push(s[i]);
    lemma_remove_distinct(s, i);
    assert forall|a: int, b: int|
        0 <= a < b < t.len() implies !key_matches((#[trigger] t[a]).0, (#[trigger] t[b]).0) by {
        if b < t.len() - 1 {
            assert(t[a] == s.remove(i)[a] && t[b] == s.remove(i)[b]);
        } else {
            let oa = if a < i {
                a
            } else {
                a + 1
            };
            assert(t[a] == s[oa]);
            assert(t[b] == s[i]);
        }
    }
}

/// Moving one entry to the back keeps the key-to-payload mapping.
proof fn lemma_remove_push_entries(
    s: Seq<(GlyphCacheKey, JobPayload)>,
    i: int,
    k: GlyphCacheKey,
    p: JobPayload,
)
    requires
        0 <= i < s.len(),
    ensures
        entries_have(s.remove(i).push(s[i]), k, p) <==> entries_have(s, k, p),
{
    let t = s.remove(i).push(s[i]);
    if entries_have(t, k, p) {
        let a = choose|a: int|
            0 <= a < t.len() && key_matches((#[trigger] t[a]).0, k) && t[a].1 == p;
        let orig = if a == t.len() - 1 {
            i
        } else if a < i {
            a
        } else {
            a + 1
        };
        assert(t[a] == s[orig]);
        assert(key_matches(s[orig].0, k) && s[orig].1 == p);
        assert(entries_have(s, k, p));
    }
    if entries_have(s, k, p) {
        let a = choose|a: int|
            0 <= a < s.len() && key_matches((#[trigger] s[a]).0, k) && s[a].1 == p;
        let moved = if a == i {
            t.len() - 1
        } else if a < i {
            a
        } else {
            a - 1
        };
        assert(t[moved] == s[a]);
        assert(key_matches(t[moved].0, k) && t[moved].1 == p);
        assert(entries_have(t, k, p));
    }
}

/// Moving one entry to the back keeps the key set.
proof fn lemma_remove_push_keys(s: Seq<(GlyphCacheKey, JobPayload)>, i: int, k: GlyphCacheKey)
    requires
        0 <= i < s.len(),
    ensures
        entries_have_key(s.remove(i).push(s[i]), k) <==> entries_have_key(s, k),
{
    let t = s.remove(i).push(s[i]);
    if entries_have_key(t, k) {
        let a = choose|a: int| 0 <= a < t.len() && key_matches((#[trigger] t[a]).0, k);
        let orig = if a == t.len() - 1 {
            i
        } else if a < i {
            a
        } else {
            a + 1
        };
        assert(t[a] == s[orig]);
        assert(key_matches(s[orig].0, k));
        assert(entries_have_key(s, k));
    }
    if entries_have_key(s, k) {
        let a = choose|a: int| 0 <= a < s.len() && key_matches((#[trigger] s[a]).0, k);
        let moved = if a == i {
            t.len() - 1
        } else if a < i {
            a
        } else {
            a - 1
        };
        assert(t[moved] == s[a]);
        assert(key_matches(t[moved].0, k));
        assert(entries_have_key(t, k));
    }
}

} // verus!
