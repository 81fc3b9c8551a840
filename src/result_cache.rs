//! The search result cache: earlier search results keyed by playlist and
//! lower-cased query, bounded in entries and in cached results, with expiry
//! and least-recently-used eviction.

use vstd::prelude::*;
use crate::channel::{Channel, copy_channels};
use crate::text::{chars_of, lower_of, lowercase};

verus! {

/// The most entries that the cache holds after a maintenance pass.
pub const MAX_CACHE_ENTRIES: usize = 100;

/// The most cached results, over all entries, after a maintenance pass.
pub const MAX_TOTAL_RESULTS: usize = 50_000;

/// How long an entry stays valid, in milliseconds.
pub const CACHE_TTL_MS: u64 = 300_000;

/// One cached search.
pub struct AdvancedSearchCacheEntry {
    /// The query as it was typed.
    pub query: String,
    /// The lower-cased query: with the playlist, the entry's key.
    pub normalized: String,
    pub results: Vec<Channel>,
    /// When the entry was made, in milliseconds.
    pub timestamp: u64,
    pub channel_list_id: Option<i32>,
    pub access_count: u32,
    /// When the entry was last returned, in milliseconds.
    pub last_accessed: u64,
    pub result_size: usize,
}

/// The key of a cache entry: the playlist and the lower-cased query.
pub struct CacheKey {
    pub channel_list_id: Option<i32>,
    pub query: String,
}

/// The search result cache, with its hit and miss counters.
pub struct SearchCache {
    pub entries: Vec<AdvancedSearchCacheEntry>,
    pub hits: u64,
    pub misses: u64,
}

/// Counters and sizes of the search result cache.
pub struct CacheStats {
    pub hits: u64,
    pub misses: u64,
    pub entries: usize,
    pub total_results: usize,
    pub memory_usage_estimate: usize,
}

/// Whether entry `e` is the one for playlist `list` and lower-cased query `lq`.
pub open spec fn has_key(e: AdvancedSearchCacheEntry, list: Option<i32>, lq: Seq<char>) -> bool {
    e.channel_list_id == list && e.normalized@ == lq
}

/// Whether two entries share a key.
pub open spec fn same_key(a: AdvancedSearchCacheEntry, b: AdvancedSearchCacheEntry) -> bool {
    a.channel_list_id == b.channel_list_id && a.normalized@ == b.normalized@
}

/// An entry whose stored fields agree with each other.
pub open spec fn entry_wf(e: AdvancedSearchCacheEntry) -> bool {
    &&& e.result_size == e.results.len()
    &&& e.normalized@ == lower_of(e.query@)
}

/// Entries that agree with themselves, with no key held twice.
pub open spec fn entries_wf(s: Seq<AdvancedSearchCacheEntry>) -> bool {
    &&& forall|i: int| 0 <= i < s.len() ==> entry_wf(#[trigger] s[i])
    &&& forall|i: int, j: int| 0 <= i < j < s.len() ==> !same_key(#[trigger] s[i], #[trigger] s[j])
}

/// Whether entry `e` is older than `ttl` at time `now`; a creation time in
/// the future counts as expired.
pub open spec fn expired(e: AdvancedSearchCacheEntry, ttl: u64, now: u64) -> bool {
    now < e.timestamp || now - e.timestamp > ttl
}

/// The entries of `s` that have not expired at `now`, in order.
pub open spec fn unexpired(s: Seq<AdvancedSearchCacheEntry>, now: u64) -> Seq<
    AdvancedSearchCacheEntry,
>
    decreases s.len(),
{
    if s.len() == 0 {
        seq![]
    } else {
        unexpired(s.drop_last(), now) + if expired(s.last(), CACHE_TTL_MS, now) {
            seq![]
        } else {
            seq![s.last()]
        }
    }
}

/// The number of cached results over all entries.
pub open spec fn total_results(s: Seq<AdvancedSearchCacheEntry>) -> nat
    decreases s.len(),
{
    if s.len() == 0 {
        0
    } else {
        total_results(s.drop_last()) + s.last().result_size as nat
    }
}

/// Whether entries `s` keep both bounds.
pub open spec fn within_bounds(s: Seq<AdvancedSearchCacheEntry>) -> bool {
    s.len() <= MAX_CACHE_ENTRIES && total_results(s) <= MAX_TOTAL_RESULTS
}

/// Whether `p` is a prefix of `s`.
pub open spec fn is_prefix(p: Seq<char>, s: Seq<char>) -> bool {
    p.len() <= s.len() && s.take(p.len() as int) == p
}

/// Whether entry `e` can narrow a search of playlist `list` for the
/// lower-cased query `lq` at `now`: it is live, of the same playlist, and its
/// lower-cased query is a non-empty prefix of `lq` that is strictly shorter.
pub open spec fn narrows(e: AdvancedSearchCacheEntry, list: Option<i32>, lq: Seq<char>, now: u64) -> bool {
    &&& e.channel_list_id == list
    &&& !expired(e, CACHE_TTL_MS, now)
    &&& is_prefix(e.normalized@, lq)
    &&& 0 < e.normalized@.len() < lq.len()
}

impl SearchCache {
    /// The cache's invariant.
    pub open spec fn wf(&self) -> bool {
        entries_wf(self.entries@)
    }

    /// An empty cache with zeroed counters.
    pub fn new() -> (r: SearchCache)
        ensures
            r.wf(),
            r.entries@.len() == 0,
            r.hits == 0,
            r.misses == 0,
    {
        SearchCache { entries: Vec::new(), hits: 0, misses: 0 }
    }
}

impl AdvancedSearchCacheEntry {
    /// A new entry for `query` and its results, made and last used at `now`,
    /// used once.
    pub fn new(query: String, results: Vec<Channel>, channel_list_id: Option<i32>, now: u64) -> (r:
        AdvancedSearchCacheEntry)
        ensures
            entry_wf(r),
            r.query == query,
            r.results == results,
            r.channel_list_id == channel_list_id,
            r.timestamp == now,
            r.last_accessed == now,
            r.access_count == 1,
    {
        let normalized = lowercase(query.as_str());
        let result_size = results.len();
        AdvancedSearchCacheEntry {
            query,
            normalized,
            results,
            timestamp: now,
            channel_list_id,
            access_count: 1,
            last_accessed: now,
            result_size,
        }
    }

    /// Records a use at `now`: one more access, and `now` as the last one.
    pub fn access(&mut self, now: u64)
        ensures
            final(self).access_count == old(self).access_count.saturating_add(1) as u32,
            final(self).last_accessed == now,
            final(self).query == old(self).query,
            final(self).normalized == old(self).normalized,
            final(self).results == old(self).results,
            final(self).timestamp == old(self).timestamp,
            final(self).channel_list_id == old(self).channel_list_id,
            final(self).result_size == old(self).result_size,
    {
        self.access_count = self.access_count.saturating_add(1);
        self.last_accessed = now;
    }

    /// Whether the entry is older than `ttl` milliseconds at `now`.
    pub fn is_expired(&self, ttl: u64, now: u64) -> (r: bool)
        ensures
            r == expired(*self, ttl, now),
    {
        now < self.timestamp || now - self.timestamp > ttl
    }
}

/// The key of `query` for playlist `channel_list_id`: letter case does not count.
pub fn make_cache_key(query: &str, channel_list_id: Option<i32>) -> (r: CacheKey)
    ensures
        r.channel_list_id == channel_list_id,
        r.query@ == lower_of(query@),
{
    CacheKey { channel_list_id, query: lowercase(query) }
}

fn same_list(a: Option<i32>, b: Option<i32>) -> (r: bool)
    ensures
        r == (a == b),
{
    match (a, b) {
        (Some(x), Some(y)) => x == y,
        (None, None) => true,
        _ => false,
    }
}

/// Removing an entry keeps the cache's invariant.
pub proof fn lemma_remove_keeps_wf(s: Seq<AdvancedSearchCacheEntry>, k: int)
    requires
        entries_wf(s),
        0 <= k < s.len(),
    ensures
        entries_wf(s.remove(k)),
{
    let r = s.remove(k);
    assert forall|i: int| 0 <= i < r.len() implies entry_wf(#[trigger] r[i]) by {
        if i < k {
            assert(r[i] == s[i]);
        } else {
            assert(r[i] == s[i + 1]);
        }
    }
    assert forall|i: int, j: int| 0 <= i < j < r.len() implies !same_key(
        #[trigger] r[i],
        #[trigger] r[j],
    ) by {
        let i2 = if i < k { i } else { i + 1 };
        let j2 = if j < k { j } else { j + 1 };
        assert(r[i] == s[i2]);
        assert(r[j] == s[j2]);
        assert(!same_key(s[i2], s[j2]));
    }
}

/// Removes every entry that has expired at `now`, keeping the others in order.
pub fn cleanup_expired_entries(cache: &mut SearchCache, now: u64)
    requires
        old(cache).wf(),
    ensures
        final(cache).wf(),
        final(cache).entries@ == unexpired(old(cache).entries@, now),
        final(cache).hits == old(cache).hits,
        final(cache).misses == old(cache).misses,
{
    let ghost orig = cache.entries@;
    let mut i: usize = 0;
    let mut j: usize = 0;
    while i < cache.entries.len()
        invariant
            i <= cache.entries.len(),
            j <= orig.len(),
            cache.entries.len() - i == orig.len() - j,
            cache.wf(),
            cache.entries@.take(i as int) == unexpired(orig.take(j as int), now),
            cache.entries@.skip(i as int) == orig.skip(j as int),
            cache.hits == old(cache).hits,
            cache.misses == old(cache).misses,
            orig == old(cache).entries@,
            orig.len() == old(cache).entries.len(),
        decreases cache.entries.len() - i,
    {
        let ghost before = cache.entries@;
        assert(before.skip(i as int)[0] == orig.skip(j as int)[0]);
        assert(orig.take(j + 1).drop_last() =~= orig.take(j as int));
        assert(orig.take(j + 1).last() == orig[j as int]);
        if cache.entries[i].is_expired(CACHE_TTL_MS, now) {
            proof {
                lemma_remove_keeps_wf(before, i as int);
            }
            cache.entries.remove(i);
            assert(cache.entries@.take(i as int) =~= before.take(i as int));
            assert forall|k: int| 0 <= k < cache.entries@.skip(i as int).len() implies #[trigger]
                cache.entries@.skip(i as int)[k] == orig.skip(j + 1)[k] by {
                assert(before.skip(i as int)[k + 1] == orig.skip(j as int)[k + 1]);
            }
            assert(cache.entries@.skip(i as int) =~= orig.skip(j + 1));
            assert(unexpired(orig.take(j + 1), now) =~= unexpired(orig.take(j as int), now));
        } else {
            assert(cache.entries@.take(i + 1) =~= before.take(i as int).push(orig[j as int]));
            assert forall|k: int| 0 <= k < cache.entries@.skip(i + 1).len() implies #[trigger]
                cache.entries@.skip(i + 1)[k] == orig.skip(j + 1)[k] by {
                assert(before.skip(i as int)[k + 1] == orig.skip(j as int)[k + 1]);
            }
            assert(cache.entries@.skip(i + 1) =~= orig.skip(j + 1));
            i += 1;
        }
        j += 1;
    }
    assert(orig.skip(j as int).len() == 0);
    assert(orig.take(j as int) =~= orig);
    assert(cache.entries@.take(i as int) =~= cache.entries@);
}

} // verus!

verus! {

/// The cached results of the entries, summed, stay within what `u128` holds.
pub proof fn lemma_total_results_bound(s: Seq<AdvancedSearchCacheEntry>)
    ensures
        total_results(s) <= s.len() * (usize::MAX as nat),
    decreases s.len(),
{
    if s.len() > 0 {
        lemma_total_results_bound(s.drop_last());
        let n = s.len() as int;
        assert((n - 1) * (usize::MAX as int) + (usize::MAX as int) == n * (usize::MAX as int))
            by (nonlinear_arith);
    }
}

/// Removing an entry takes its results off the total.
pub proof fn lemma_total_results_remove(s: Seq<AdvancedSearchCacheEntry>, k: int)
    requires
        0 <= k < s.len(),
    ensures
        total_results(s.remove(k)) + s[k].result_size == total_results(s),
    decreases s.len(),
{
    if k == s.len() - 1 {
        assert(s.remove(k) =~= s.drop_last());
    } else {
        lemma_total_results_remove(s.drop_last(), k);
        assert(s.remove(k).drop_last() =~= s.drop_last().remove(k));
        assert(s.remove(k).last() == s.last());
    }
}

/// The number of cached results over all entries.
fn sum_results(entries: &Vec<AdvancedSearchCacheEntry>) -> (r: u128)
    ensures
        r == total_results(entries@),
{
    let mut acc: u128 = 0;
    let mut i: usize = 0;
    while i < entries.len()
        invariant
            i <= entries.len(),
            acc == total_results(entries@.take(i as int)),
        decreases entries.len() - i,
    {
        proof {
            let t = entries@.take(i + 1);
            assert(t.drop_last() =~= entries@.take(i as int));
            lemma_total_results_bound(t);
            let n = (i + 1) as int;
            assert(n * (usize::MAX as int) <= (usize::MAX as int) * (usize::MAX as int))
                by (nonlinear_arith)
                requires
                    n <= usize::MAX,
            ;
            let m = usize::MAX as int;
            assert(m * m <= u128::MAX) by (nonlinear_arith)
                requires
                    0 <= m <= 0xffff_ffff_ffff_ffff,
            ;
            assert(t.last() == entries@[i as int]);
            assert(total_results(t) == acc + entries@[i as int].result_size);
        }
        acc = acc + entries[i].result_size as u128;
        i += 1;
    }
    assert(entries@.take(i as int) =~= entries@);
    acc
}

/// The index of an entry with the oldest last access.
fn oldest_index(entries: &Vec<AdvancedSearchCacheEntry>) -> (k: usize)
    requires
        entries.len() > 0,
    ensures
        k < entries.len(),
        forall|j: int| 0 <= j < entries.len() ==> entries@[k as int].last_accessed <= #[trigger] entries@[j].last_accessed,
{
    let mut k: usize = 0;
    let mut i: usize = 1;
    while i < entries.len()
        invariant
            k < i <= entries.len(),
            forall|j: int| 0 <= j < i ==> entries@[k as int].last_accessed <= #[trigger] entries@[j].last_accessed,
        decreases entries.len() - i,
    {
        if entries[i].last_accessed < entries[k].last_accessed {
            k = i;
        }
        i += 1;
    }
    k
}

/// The maintenance pass: removes the expired entries, then, while the cache
/// holds more than `MAX_CACHE_ENTRIES` entries or more than
/// `MAX_TOTAL_RESULTS` results, removes an entry with the oldest last access.
pub fn evict_if_needed(cache: &mut SearchCache, now: u64)
    requires
        old(cache).wf(),
    ensures
        final(cache).wf(),
        within_bounds(final(cache).entries@),
        forall|x: AdvancedSearchCacheEntry| #[trigger]
            final(cache).entries@.contains(x) ==> unexpired(old(cache).entries@, now).contains(x),
        within_bounds(unexpired(old(cache).entries@, now)) ==> final(cache).entries@ == unexpired(
            old(cache).entries@,
            now,
        ),
        forall|x: AdvancedSearchCacheEntry, y: AdvancedSearchCacheEntry|
            #![trigger unexpired(old(cache).entries@, now).contains(x), final(cache).entries@.contains(y)]
            unexpired(old(cache).entries@, now).contains(x) && !final(cache).entries@.contains(x)
                && final(cache).entries@.contains(y) ==> x.last_accessed <= y.last_accessed,
        final(cache).entries@ != unexpired(old(cache).entries@, now) ==> exists|x: AdvancedSearchCacheEntry|
            #![trigger unexpired(old(cache).entries@, now).contains(x)]
            unexpired(old(cache).entries@, now).contains(x) && !final(cache).entries@.contains(x) && (
            forall|y: AdvancedSearchCacheEntry|
                #![trigger unexpired(old(cache).entries@, now).contains(y)]
                unexpired(old(cache).entries@, now).contains(y) && !final(cache).entries@.contains(y)
                    ==> y.last_accessed <= x.last_accessed) && (
            final(cache).entries@.len() + 1 > MAX_CACHE_ENTRIES || total_results(
                final(cache).entries@,
            ) + x.result_size > MAX_TOTAL_RESULTS),
        final(cache).hits == old(cache).hits,
        final(cache).misses == old(cache).misses,
{
    cleanup_expired_entries(cache, now);
    let ghost kept0 = cache.entries@;
    let mut total = sum_results(&cache.entries);
    if cache.entries.len() <= MAX_CACHE_ENTRIES && total <= MAX_TOTAL_RESULTS as u128 {
        return ;
    }
    let ghost mut removed: Seq<AdvancedSearchCacheEntry> = Seq::empty();
    let ghost mut last = cache.entries@[0];
    while cache.entries.len() > MAX_CACHE_ENTRIES || total > MAX_TOTAL_RESULTS as u128
        invariant
            cache.wf(),
            total == total_results(cache.entries@),
            kept0 == unexpired(old(cache).entries@, now),
            forall|x: AdvancedSearchCacheEntry| #[trigger]
                cache.entries@.contains(x) ==> kept0.contains(x),
            forall|x: AdvancedSearchCacheEntry| #[trigger]
                kept0.contains(x) ==> cache.entries@.contains(x) || removed.contains(x),
            forall|x: AdvancedSearchCacheEntry, y: AdvancedSearchCacheEntry|
                #![trigger removed.contains(x), cache.entries@.contains(y)]
                removed.contains(x) && cache.entries@.contains(y) ==> x.last_accessed
                    <= y.last_accessed,
            cache.hits == old(cache).hits,
            cache.misses == old(cache).misses,
            cache.entries@ != kept0 ==> kept0.contains(last) && !cache.entries@.contains(last) && (
            forall|y: AdvancedSearchCacheEntry| #[trigger]
                removed.contains(y) ==> y.last_accessed <= last.last_accessed) && (
            cache.entries@.len() + 1 > MAX_CACHE_ENTRIES || total_results(cache.entries@)
                + last.result_size > MAX_TOTAL_RESULTS),
        decreases cache.entries.len(),
    {
        if cache.entries.len() == 0 {
            assert(total_results(cache.entries@) == 0);
        }
        let k = oldest_index(&cache.entries);
        let ghost before = cache.entries@;
        proof {
            lemma_remove_keeps_wf(before, k as int);
            lemma_total_results_remove(before, k as int);
        }
        let e = cache.entries.remove(k);
        total = total - e.result_size as u128;
        proof {
            let after = cache.entries@;
            assert(before[k as int] == e);
            assert(before.contains(e));
            assert(kept0.contains(e));
            assert(!after.contains(e)) by {
                if after.contains(e) {
                    let i = choose|i: int| 0 <= i < after.len() && after[i] == e;
                    if i < k {
                        assert(before[i] == e);
                        assert(!same_key(before[i], before[k as int]));
                    } else {
                        assert(before[i + 1] == e);
                        assert(!same_key(before[k as int], before[i + 1]));
                    }
                }
            }
            last = e;
            if after == kept0 {
                assert(after.contains(e));
            }
            assert forall|x: AdvancedSearchCacheEntry| #[trigger]
                after.contains(x) implies before.contains(x) by {
                let i = choose|i: int| 0 <= i < after.len() && after[i] == x;
                if i < k {
                    assert(before[i] == x);
                } else {
                    assert(before[i + 1] == x);
                }
            }
            assert forall|x: AdvancedSearchCacheEntry| #[trigger]
                before.contains(x) implies after.contains(x) || x == e by {
                let i = choose|i: int| 0 <= i < before.len() && before[i] == x;
                if i < k {
                    assert(after[i] == x);
                } else if i > k {
                    assert(after[i - 1] == x);
                }
            }
            let old_removed = removed;
            removed = removed.push(e);
            assert forall|x: AdvancedSearchCacheEntry| #[trigger]
                removed.contains(x) implies old_removed.contains(x) || x == e by {
                let i = choose|i: int| 0 <= i < removed.len() && removed[i] == x;
                if i < old_removed.len() {
                    assert(old_removed[i] == x);
                }
            }
            assert(removed[old_removed.len() as int] == e);
            assert forall|y: AdvancedSearchCacheEntry| #[trigger]
                removed.contains(y) implies y.last_accessed <= e.last_accessed by {
                if old_removed.contains(y) {
                    assert(before.contains(e));
                }
            }
            assert forall|x: AdvancedSearchCacheEntry| #[trigger]
                old_removed.contains(x) implies removed.contains(x) by {
                let i = choose|i: int| 0 <= i < old_removed.len() && old_removed[i] == x;
                assert(removed[i] == x);
            }
            assert forall|y: AdvancedSearchCacheEntry| #[trigger]
                after.contains(y) implies e.last_accessed <= y.last_accessed by {
                let i = choose|i: int| 0 <= i < before.len() && before[i] == y;
                assert(before[k as int].last_accessed <= before[i].last_accessed);
            }
        }
    }
}

} // verus!

verus! {

/// `b` is entry `a` after a use at `now`.
pub open spec fn accessed(a: AdvancedSearchCacheEntry, b: AdvancedSearchCacheEntry, now: u64) -> bool {
    &&& b.access_count == a.access_count.saturating_add(1) as u32
    &&& b.last_accessed == now
    &&& b.query == a.query
    &&& b.normalized == a.normalized
    &&& b.results == a.results
    &&& b.timestamp == a.timestamp
    &&& b.channel_list_id == a.channel_list_id
    &&& b.result_size == a.result_size
}

/// `e` is a new entry for `query` and `results` of playlist `list`, made at `now`.
pub open spec fn fresh_entry(
    e: AdvancedSearchCacheEntry,
    query: String,
    list: Option<i32>,
    results: Vec<Channel>,
    now: u64,
) -> bool {
    &&& entry_wf(e)
    &&& e.query == query
    &&& e.results == results
    &&& e.channel_list_id == list
    &&& e.timestamp == now
    &&& e.last_accessed == now
    &&& e.access_count == 1
}

/// `after` is `before` once `results` for `query` of playlist `list` were
/// stored at `now`: the entry with the same key replaced in place, or else
/// the new entry added at the end.
pub open spec fn inserted(
    before: Seq<AdvancedSearchCacheEntry>,
    after: Seq<AdvancedSearchCacheEntry>,
    query: String,
    list: Option<i32>,
    results: Vec<Channel>,
    now: u64,
) -> bool {
    let lq = lower_of(query@);
    &&& forall|k: int|
        0 <= k < before.len() && has_key(#[trigger] before[k], list, lq) ==> after.len()
            == before.len() && fresh_entry(after[k], query, list, results, now) && forall|j: int|
            0 <= j < before.len() && j != k ==> after[j] == before[j]
    &&& (forall|k: int| 0 <= k < before.len() ==> !has_key(#[trigger] before[k], list, lq))
        ==> after.len() == before.len() + 1 && fresh_entry(
        after[before.len() as int],
        query,
        list,
        results,
        now,
    ) && forall|j: int| 0 <= j < before.len() ==> after[j] == before[j]
}

/// After an insert the cache holds a live entry with the new results under
/// the query's key, and every entry of another key is still there.
pub proof fn lemma_inserted_entry(
    before: Seq<AdvancedSearchCacheEntry>,
    after: Seq<AdvancedSearchCacheEntry>,
    query: String,
    list: Option<i32>,
    results: Vec<Channel>,
    now: u64,
) -> (k: int)
    requires
        inserted(before, after, query, list, results, now),
    ensures
        0 <= k < after.len(),
        has_key(after[k], list, lower_of(query@)),
        fresh_entry(after[k], query, list, results, now),
        !expired(after[k], CACHE_TTL_MS, now),
        forall|x: AdvancedSearchCacheEntry|
            before.contains(x) && !has_key(x, list, lower_of(query@)) ==> #[trigger] after.contains(x),
{
    let lq = lower_of(query@);
    if exists|k: int| 0 <= k < before.len() && has_key(#[trigger] before[k], list, lq) {
        let k = choose|k: int| 0 <= k < before.len() && has_key(#[trigger] before[k], list, lq);
        assert forall|x: AdvancedSearchCacheEntry|
            before.contains(x) && !has_key(x, list, lq) implies #[trigger] after.contains(x) by {
            let j = choose|j: int| 0 <= j < before.len() && before[j] == x;
            assert(after[j] == x);
        }
        k
    } else {
        let k = before.len() as int;
        assert forall|x: AdvancedSearchCacheEntry|
            before.contains(x) && !has_key(x, list, lq) implies #[trigger] after.contains(x) by {
            let j = choose|j: int| 0 <= j < before.len() && before[j] == x;
            assert(after[j] == x);
        }
        k
    }
}

/// Queries that lower-case alike share one cache entry: after storing
/// results for `q1`, an exact lookup for `q2` at the same time finds them.
pub proof fn differently_cased_queries_share_an_entry(
    before: Seq<AdvancedSearchCacheEntry>,
    after: Seq<AdvancedSearchCacheEntry>,
    q1: String,
    q2: Seq<char>,
    list: Option<i32>,
    results: Vec<Channel>,
    now: u64,
)
    requires
        inserted(before, after, q1, list, results, now),
        lower_of(q1@) == lower_of(q2),
    ensures
        exists|i: int|
            0 <= i < after.len() && has_key(#[trigger] after[i], list, lower_of(q2)) && !expired(
                after[i],
                CACHE_TTL_MS,
                now,
            ) && after[i].results == results,
{
    let k = lemma_inserted_entry(before, after, q1, list, results, now);
    assert(has_key(after[k], list, lower_of(q2)));
}

/// The index of the entry with key (`list`, `lq`), or the length when there is none.
fn key_index(entries: &Vec<AdvancedSearchCacheEntry>, list: Option<i32>, lq: &String) -> (k: usize)
    ensures
        k <= entries.len(),
        k < entries.len() ==> has_key(entries@[k as int], list, lq@),
        k == entries.len() ==> forall|j: int|
            0 <= j < entries.len() ==> !has_key(#[trigger] entries@[j], list, lq@),
{
    let mut i: usize = 0;
    while i < entries.len()
        invariant
            i <= entries.len(),
            forall|j: int| 0 <= j < i ==> !has_key(#[trigger] entries@[j], list, lq@),
        decreases entries.len() - i,
    {
        if same_list(entries[i].channel_list_id, list) && entries[i].normalized == *lq {
            return i;
        }
        i += 1;
    }
    i
}

/// The cached results of `query` for playlist `channel_list_id`, when an
/// entry with that key is present and has not expired at `now`; the entry is
/// then marked as used at `now`. Letter case in `query` does not count.
pub fn lookup_exact(cache: &mut SearchCache, query: &str, channel_list_id: Option<i32>, now: u64) -> (r:
    Option<Vec<Channel>>)
    requires
        old(cache).wf(),
    ensures
        final(cache).wf(),
        final(cache).hits == old(cache).hits,
        final(cache).misses == old(cache).misses,
        final(cache).entries@.len() == old(cache).entries@.len(),
        r is Some <==> exists|i: int|
            0 <= i < old(cache).entries@.len() && has_key(
                #[trigger] old(cache).entries@[i],
                channel_list_id,
                lower_of(query@),
            ) && !expired(old(cache).entries@[i], CACHE_TTL_MS, now),
        forall|i: int|
            0 <= i < old(cache).entries@.len() && has_key(
                #[trigger] old(cache).entries@[i],
                channel_list_id,
                lower_of(query@),
            ) && !expired(old(cache).entries@[i], CACHE_TTL_MS, now) ==> r is Some && r->0@ == old(
                cache,
            ).entries@[i].results@ && accessed(old(cache).entries@[i], final(cache).entries@[i], now),
        forall|j: int|
            0 <= j < old(cache).entries@.len() && !(has_key(
                #[trigger] old(cache).entries@[j],
                channel_list_id,
                lower_of(query@),
            ) && !expired(old(cache).entries@[j], CACHE_TTL_MS, now)) ==> final(cache).entries@[j]
                == old(cache).entries@[j],
{
    let key = make_cache_key(query, channel_list_id);
    let k = key_index(&cache.entries, channel_list_id, &key.query);
    if k < cache.entries.len() && !cache.entries[k].is_expired(CACHE_TTL_MS, now) {
        let ghost before = cache.entries@;
        let mut e = cache.entries.remove(k);
        e.access(now);
        let results = copy_channels(&e.results);
        cache.entries.insert(k, e);
        proof {
            let after = cache.entries@;
            assert forall|j: int| 0 <= j < after.len() && j != k implies after[j] == before[j] by {
            }
            assert forall|j: int| 0 <= j < after.len() && j != k implies !has_key(
                #[trigger] before[j],
                channel_list_id,
                lower_of(query@),
            ) by {
                if j < k {
                    assert(!same_key(before[j], before[k as int]));
                } else {
                    assert(!same_key(before[k as int], before[j]));
                }
            }
            assert forall|i: int| 0 <= i < after.len() implies entry_wf(#[trigger] after[i]) by {
                if i != k {
                    assert(after[i] == before[i]);
                }
            }
            assert forall|i: int, j: int| 0 <= i < j < after.len() implies !same_key(
                #[trigger] after[i],
                #[trigger] after[j],
            ) by {
                assert(!same_key(before[i], before[j]));
            }
        }
        Some(results)
    } else {
        proof {
            if k < cache.entries.len() {
                assert forall|i: int| 0 <= i < cache.entries@.len() && has_key(
                    #[trigger] cache.entries@[i],
                    channel_list_id,
                    lower_of(query@),
                ) implies i == k by {
                    if i < k {
                        assert(!same_key(cache.entries@[i], cache.entries@[k as int]));
                    } else if i > k {
                        assert(!same_key(cache.entries@[k as int], cache.entries@[i]));
                    }
                }
            }
        }
        None
    }
}

/// Whether `p` is a prefix of `s`.
fn starts_with_chars(s: &Vec<char>, p: &Vec<char>) -> (r: bool)
    ensures
        r == is_prefix(p@, s@),
{
    if p.len() > s.len() {
        return false;
    }
    let mut i: usize = 0;
    while i < p.len()
        invariant
            i <= p.len() <= s.len(),
            forall|j: int| 0 <= j < i ==> s@[j] == p@[j],
        decreases p.len() - i,
    {
        if s[i] != p[i] {
            assert(s@.take(p.len() as int)[i as int] != p@[i as int]);
            return false;
        }
        i += 1;
    }
    assert(s@.take(p.len() as int) =~= p@);
    true
}

/// The cached entry that best narrows a search of playlist `channel_list_id`
/// for `query` at `now`: among the live entries of that playlist whose
/// lower-cased query is a non-empty prefix of the lower-cased `query`, strictly
/// shorter, one with the longest such query. It returns that entry's query as
/// typed and its results, or `None` when there is no candidate.
pub fn find_best_cached_prefix(cache: &SearchCache, query: &str, channel_list_id: Option<i32>, now: u64) -> (r:
    Option<(String, Vec<Channel>)>)
    requires
        cache.wf(),
    ensures
        r is None <==> forall|i: int|
            0 <= i < cache.entries@.len() ==> !narrows(
                #[trigger] cache.entries@[i],
                channel_list_id,
                lower_of(query@),
                now,
            ),
        r matches Some(p) ==> exists|i: int|
            0 <= i < cache.entries@.len() && narrows(
                #[trigger] cache.entries@[i],
                channel_list_id,
                lower_of(query@),
                now,
            ) && p.0@ == cache.entries@[i].query@ && p.1@ == cache.entries@[i].results@ && (forall|
                j: int,
            |
                0 <= j < cache.entries@.len() && narrows(
                    #[trigger] cache.entries@[j],
                    channel_list_id,
                    lower_of(query@),
                    now,
                ) ==> cache.entries@[j].normalized@.len() <= cache.entries@[i].normalized@.len()),
{
    let lower = lowercase(query);
    let lq = chars_of(lower.as_str());
    let mut best: usize = cache.entries.len();
    let mut best_len: usize = 0;
    let mut i: usize = 0;
    while i < cache.entries.len()
        invariant
            i <= cache.entries.len(),
            lq@ == lower_of(query@),
            best == cache.entries.len() ==> best_len == 0,
            best == cache.entries.len() || (best < i && narrows(
                cache.entries@[best as int],
                channel_list_id,
                lq@,
                now,
            ) && best_len == cache.entries@[best as int].normalized@.len()),
            forall|j: int|
                0 <= j < i && narrows(#[trigger] cache.entries@[j], channel_list_id, lq@, now)
                    ==> best < cache.entries.len() && cache.entries@[j].normalized@.len()
                    <= best_len,
        decreases cache.entries.len() - i,
    {
        let e = &cache.entries[i];
        if same_list(e.channel_list_id, channel_list_id) && !e.is_expired(CACHE_TTL_MS, now) {
            let cq = chars_of(e.normalized.as_str());
            if cq.len() > best_len && cq.len() < lq.len() && starts_with_chars(&lq, &cq) {
                best = i;
                best_len = cq.len();
            }
        }
        i += 1;
    }
    if best < cache.entries.len() {
        let e = &cache.entries[best];
        Some((e.query.clone(), copy_channels(&e.results)))
    } else {
        None
    }
}

/// Stores `results` for `query` of playlist `channel_list_id` as a new entry
/// made at `now`; an entry with the same key is replaced in place, otherwise
/// the entry is added at the end.
pub fn insert(cache: &mut SearchCache, query: String, channel_list_id: Option<i32>, results: Vec<Channel>, now: u64)
    requires
        old(cache).wf(),
    ensures
        final(cache).wf(),
        final(cache).hits == old(cache).hits,
        final(cache).misses == old(cache).misses,
        inserted(old(cache).entries@, final(cache).entries@, query, channel_list_id, results, now),
{
    let ghost q = query;
    let ghost res = results;
    let entry = AdvancedSearchCacheEntry::new(query, results, channel_list_id, now);
    let k = key_index(&cache.entries, channel_list_id, &entry.normalized);
    let ghost before = cache.entries@;
    if k < cache.entries.len() {
        cache.entries.set(k, entry);
        proof {
            let after = cache.entries@;
            assert forall|i: int| 0 <= i < before.len() && has_key(
                #[trigger] before[i],
                channel_list_id,
                lower_of(q@),
            ) implies i == k by {
                if i < k {
                    assert(!same_key(before[i], before[k as int]));
                } else if i > k {
                    assert(!same_key(before[k as int], before[i]));
                }
            }
            assert forall|i: int| 0 <= i < after.len() implies entry_wf(#[trigger] after[i]) by {
                if i != k {
                    assert(after[i] == before[i]);
                }
            }
            assert forall|i: int, j: int| 0 <= i < j < after.len() implies !same_key(
                #[trigger] after[i],
                #[trigger] after[j],
            ) by {
                assert(!same_key(before[i], before[j]));
            }
        }
    } else {
        cache.entries.push(entry);
        proof {
            let after = cache.entries@;
            assert forall|i: int| 0 <= i < after.len() implies entry_wf(#[trigger] after[i]) by {
                if i < before.len() {
                    assert(after[i] == before[i]);
                }
            }
            assert forall|i: int, j: int| 0 <= i < j < after.len() implies !same_key(
                #[trigger] after[i],
                #[trigger] after[j],
            ) by {
                if j < before.len() {
                    assert(!same_key(before[i], before[j]));
                } else {
                    assert(!has_key(before[i], channel_list_id, lower_of(q@)));
                }
            }
        }
    }
}

/// Empties the cache; the counters are kept.
pub fn clear_advanced_cache(cache: &mut SearchCache)
    ensures
        final(cache).wf(),
        final(cache).entries@.len() == 0,
        final(cache).hits == old(cache).hits,
        final(cache).misses == old(cache).misses,
{
    cache.entries.clear();
}

} // verus!

verus! {

/// `x` capped at `usize::MAX`.
pub open spec fn capped(x: int) -> int {
    if x > usize::MAX {
        usize::MAX as int
    } else {
        x
    }
}

/// The advisory memory estimate: a channel's size for each cached result and
/// an entry's size for each entry, capped at `usize::MAX`.
pub open spec fn memory_estimate(total: int, n: int) -> int {
    capped(
        total * vstd::layout::size_of::<Channel>() + n * vstd::layout::size_of::<
            AdvancedSearchCacheEntry,
        >(),
    )
}

/// The cache's counters and sizes: hits, misses, entries, cached results
/// (capped at `usize::MAX`) and the memory estimate.
pub fn get_cache_stats(cache: &SearchCache) -> (r: CacheStats)
    ensures
        r.hits == cache.hits,
        r.misses == cache.misses,
        r.entries == cache.entries@.len(),
        r.total_results == capped(total_results(cache.entries@) as int),
        r.memory_usage_estimate == memory_estimate(
            total_results(cache.entries@) as int,
            cache.entries@.len() as int,
        ),
{
    let total = sum_results(&cache.entries);
    let n = cache.entries.len();
    let channel_size = core::mem::size_of::<Channel>();
    let entry_size = core::mem::size_of::<AdvancedSearchCacheEntry>();
    let total_capped: usize = if total > usize::MAX as u128 {
        usize::MAX
    } else {
        total as usize
    };
    let t = total as u128;
    proof {
        lemma_total_results_bound(cache.entries@);
        let m = usize::MAX as int;
        assert(m * m <= u128::MAX) by (nonlinear_arith)
            requires
                0 <= m <= 0xffff_ffff_ffff_ffff,
        ;
    }
    let channel_bytes: u128 = if channel_size == 0 {
        0
    } else if total > usize::MAX as u128 {
        proof {
            assert((total as int) * (channel_size as int) >= total as int) by (nonlinear_arith)
                requires
                    channel_size >= 1,
                    total >= 0,
            ;
        }
        usize::MAX as u128
    } else {
        proof {
            assert((total as int) * (channel_size as int) <= (usize::MAX as int) * (
            usize::MAX as int)) by (nonlinear_arith)
                requires
                    0 <= total <= usize::MAX,
                    0 <= channel_size <= usize::MAX,
            ;
        }
        let p = t * channel_size as u128;
        if p > usize::MAX as u128 {
            usize::MAX as u128
        } else {
            p
        }
    };
    proof {
        assert((n as int) * (entry_size as int) <= (usize::MAX as int) * (usize::MAX as int))
            by (nonlinear_arith)
            requires
                0 <= n <= usize::MAX,
                0 <= entry_size <= usize::MAX,
        ;
    }
    let entry_bytes_full = n as u128 * entry_size as u128;
    let entry_bytes: u128 = if entry_bytes_full > usize::MAX as u128 {
        usize::MAX as u128
    } else {
        entry_bytes_full
    };
    let sum = channel_bytes + entry_bytes;
    let estimate: usize = if sum > usize::MAX as u128 {
        usize::MAX
    } else {
        sum as usize
    };
    proof {
        let a = (total as int) * (channel_size as int);
        let b = (n as int) * (entry_size as int);
        assert(a >= 0) by (nonlinear_arith)
            requires
                a == (total as int) * (channel_size as int),
                total >= 0,
                channel_size >= 0,
        ;
        assert(b >= 0) by (nonlinear_arith)
            requires
                b == (n as int) * (entry_size as int),
                n >= 0,
                entry_size >= 0,
        ;
        if channel_size == 0 {
            assert(a == 0) by (nonlinear_arith)
                requires
                    a == (total as int) * (channel_size as int),
                    channel_size == 0,
            ;
        }
        assert(channel_bytes as int == capped(a));
        assert(entry_bytes as int == capped(b));
        assert(estimate as int == capped(a + b));
    }
    CacheStats {
        hits: cache.hits,
        misses: cache.misses,
        entries: n,
        total_results: total_capped,
        memory_usage_estimate: estimate,
    }
}

} // verus!
